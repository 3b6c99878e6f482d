//! A deck: the cards still available, and the cards already used.

use crate::card::{Card, Rank, Suit};
use crate::chance::random_below;
use vstd::prelude::*;
use vstd::string::*;

verus! {

/// A deck of cards. Cards leave the available pile for the used pile when
/// they are drawn or removed. A deck is well formed when no card is in it
/// twice: `new` makes such a deck and every operation keeps it so.
#[derive(Debug, Clone)]
pub struct Deck {
    cards: Vec<Card>,
    used_cards: Vec<Card>,
}

/// The two piles of a deck, each in the order in which it is kept.
pub struct DeckView {
    pub available: Seq<Card>,
    pub used: Seq<Card>,
}

impl DeckView {
    /// No card occurs twice, neither within a pile nor across the two.
    pub open spec fn wf(self) -> bool {
        (self.available + self.used).no_duplicates()
    }

    /// A deck as it is when new: all fifty-two cards available, none used.
    pub open spec fn fresh() -> DeckView {
        DeckView { available: standard_deck(), used: Seq::empty() }
    }
}

impl View for Deck {
    type V = DeckView;

    closed spec fn view(&self) -> DeckView {
        DeckView { available: self.cards@, used: self.used_cards@ }
    }
}

/// The card at a place of the standard deck: the suits follow one another as
/// Spades, Hearts, Diamonds, Clubs, and inside a suit the ranks run from the
/// Ace over the Two up to the King.
pub open spec fn standard_card(i: int) -> Card {
    Card { rank: Rank::of_number(i % 13 + 1)->0, suit: Suit::of_number(i / 13 + 1)->0 }
}

/// The fifty-two cards in their standard order.
pub open spec fn standard_deck() -> Seq<Card> {
    Seq::new(52, |i: int| standard_card(i))
}

/// The place of a card in the standard deck.
pub open spec fn standard_place(card: Card) -> int {
    (card.suit.number() - 1) * 13 + card.rank.number() - 1
}

/// The card at place `i` of the available pile has moved to the end of the
/// used pile, and nothing else has changed.
pub open spec fn moved(before: DeckView, after: DeckView, i: int) -> bool {
    &&& 0 <= i < before.available.len()
    &&& after.available == before.available.remove(i)
    &&& after.used == before.used.push(before.available[i])
}

/// What one draw does. From an empty available pile nothing is drawn and the
/// deck stays as it is; otherwise one of the available cards is drawn and
/// moves to the used pile.
pub open spec fn is_draw(before: DeckView, after: DeckView, drawn: Option<Card>) -> bool {
    match drawn {
        None => before.available.len() == 0 && after == before,
        Some(card) => exists|i: int| #[trigger]
            moved(before, after, i) && before.available[i] == card,
    }
}

/// The standard deck holds fifty-two cards, each card exactly once.
pub proof fn lemma_standard_deck()
    ensures
        standard_deck().len() == 52,
        standard_deck().no_duplicates(),
        forall|card: Card|
            0 <= #[trigger] standard_place(card) < 52 && standard_deck()[standard_place(card)]
                == card,
        DeckView::fresh().wf(),
{
    assert forall|i: int, j: int|
        0 <= i < 52 && 0 <= j < 52 && i != j implies standard_deck()[i] != standard_deck()[j] by {
        if i % 13 == j % 13 {
            assert(i / 13 != j / 13);
        }
    }
    assert forall|card: Card|
        0 <= #[trigger] standard_place(card) < 52 && standard_deck()[standard_place(card)]
            == card by {
        let place = standard_place(card);
        assert(place % 13 == card.rank.number() - 1);
        assert(place / 13 == card.suit.number() - 1);
    }
    assert(standard_deck() + Seq::<Card>::empty() =~= standard_deck());
}

/// Moving a card from the available pile to the used pile keeps every card
/// single: the card is no longer available, it was not used before, and
/// nothing has become available that was not.
pub proof fn lemma_move_keeps_wf(before: DeckView, after: DeckView, i: int)
    requires
        before.wf(),
        moved(before, after, i),
    ensures
        after.wf(),
        after.available.len() == before.available.len() - 1,
        !after.available.contains(before.available[i]),
        !before.used.contains(before.available[i]),
        forall|card: Card| #[trigger]
            after.available.contains(card) ==> before.available.contains(card),
{
    assert forall|card: Card| after.available.contains(card) implies before.available.contains(
        card,
    ) by {
        let k = choose|k: int| 0 <= k < after.available.len() && after.available[k] == card;
        if k < i {
            assert(before.available[k] == card);
        } else {
            assert(before.available[k + 1] == card);
        }
    }
    let old_all = before.available + before.used;
    let new_all = after.available + after.used;
    let n = before.available.len() as int;
    let m = before.used.len() as int;
    // Where each card of the new piles was in the old ones.
    let origin = |k: int|
        if k < i {
            k
        } else if k < n - 1 + m {
            k + 1
        } else {
            i
        };
    assert forall|k: int| 0 <= k < new_all.len() implies new_all[k] == old_all[origin(k)] by {}
    assert forall|a: int, b: int| 0 <= a < new_all.len() && 0 <= b < new_all.len() && a != b implies new_all[a]
        != new_all[b] by {
        assert(origin(a) != origin(b));
        assert(new_all[a] == old_all[origin(a)]);
        assert(new_all[b] == old_all[origin(b)]);
    }
    if after.available.contains(before.available[i]) {
        let k = choose|k: int| 0 <= k < after.available.len() && after.available[k] == before.available[i];
        assert(new_all[k] == old_all[origin(k)]);
        assert(old_all[i] == before.available[i]);
    }
    if before.used.contains(before.available[i]) {
        let k = choose|k: int| 0 <= k < before.used.len() && before.used[k] == before.available[i];
        assert(old_all[n + k] == before.used[k]);
        assert(old_all[i] == before.available[i]);
    }
}

/// The place of a card in a list, if it is there.
fn position(cards: &Vec<Card>, card: Card) -> (found: Option<usize>)
    ensures
        match found {
            Some(i) => i < cards.len() && cards[i as int] == card,
            None => !cards@.contains(card),
        },
{
    let mut i: usize = 0;
    while i < cards.len()
        invariant
            i <= cards.len(),
            forall|j: int| 0 <= j < i ==> cards[j] != card,
        decreases cards.len() - i,
    {
        if cards[i] == card {
            return Some(i);
        }
        i += 1;
    }
    None
}

/// The fifty-two cards in their standard order.
pub(crate) fn standard_cards() -> (cards: Vec<Card>)
    ensures
        cards@ == standard_deck(),
{
    let mut cards: Vec<Card> = Vec::new();
    let mut suit_num: u8 = 1;
    while suit_num <= 4
        invariant
            1 <= suit_num <= 5,
            cards@ == Seq::new((13 * (suit_num - 1)) as nat, |i: int| standard_card(i)),
        decreases 5 - suit_num,
    {
        let mut rank_num: u8 = 1;
        while rank_num <= 13
            invariant
                1 <= suit_num <= 4,
                1 <= rank_num <= 14,
                cards@ == Seq::new(
                    (13 * (suit_num - 1) + rank_num - 1) as nat,
                    |i: int| standard_card(i),
                ),
            decreases 14 - rank_num,
        {
            if let Some(card) = Card::from_numbers(rank_num, suit_num) {
                let ghost place = 13 * (suit_num - 1) + rank_num - 1;
                assert(place % 13 == rank_num - 1);
                assert(place / 13 == suit_num - 1);
                assert(card == standard_card(place));
                cards.push(card);
                assert(cards@ =~= Seq::new((place + 1) as nat, |i: int| standard_card(i)));
            }
            rank_num += 1;
        }
        suit_num += 1;
    }
    assert(cards@ =~= standard_deck());
    cards
}

impl Deck {
    /// A full deck: the fifty-two cards in their standard order, none used.
    pub fn new() -> (deck: Deck)
        ensures
            deck@ == DeckView::fresh(),
            deck@.wf(),
    {
        let cards = standard_cards();
        let used_cards: Vec<Card> = Vec::new();
        proof {
            lemma_standard_deck();
        }
        Deck { cards, used_cards }
    }

    /// Moves the card at a given place of the available pile to the used pile
    /// and hands it out. A place beyond the pile gives `None` and leaves the
    /// deck as it is.
    pub fn draw_at(&mut self, index: usize) -> (drawn: Option<Card>)
        requires
            old(self)@.wf(),
        ensures
            final(self)@.wf(),
            match drawn {
                Some(card) => moved(old(self)@, final(self)@, index as int) && card == old(
                    self,
                )@.available[index as int],
                None => index >= old(self)@.available.len() && final(self)@ == old(self)@,
            },
    {
        if index >= self.cards.len() {
            return None;
        }
        let ghost before = self@;
        let card = self.cards[index];
        proof {
            let after = DeckView {
                available: before.available.remove(index as int),
                used: before.used.push(card),
            };
            lemma_move_keeps_wf(before, after, index as int);
        }
        self.cards.remove(index);
        self.used_cards.push(card);
        Some(card)
    }

    /// Draws a card at random from the available pile and moves it to the
    /// used pile. An empty pile gives `None` and leaves the deck as it is.
    pub fn draw(&mut self) -> (drawn: Option<Card>)
        requires
            old(self)@.wf(),
        ensures
            is_draw(old(self)@, final(self)@, drawn),
            final(self)@.wf(),
    {
        if self.cards.len() == 0 {
            return None;
        }
        let index = random_below(self.cards.len());
        let ghost before = self@;
        let drawn = self.draw_at(index);
        assert(moved(before, self@, index as int));
        drawn
    }

    /// Puts a card on the available pile. A card that is already in the
    /// deck, used or available, is refused and the deck stays as it is.
    pub fn add(&mut self, card: Card) -> (result: Result<(), String>)
        requires
            old(self)@.wf(),
        ensures
            final(self)@.wf(),
            match result {
                Ok(_) => {
                    &&& !old(self)@.used.contains(card)
                    &&& !old(self)@.available.contains(card)
                    &&& final(self)@.available == old(self)@.available.push(card)
                    &&& final(self)@.used == old(self)@.used
                },
                Err(message) => {
                    &&& final(self)@ == old(self)@
                    &&& if old(self)@.used.contains(card) {
                        message@ == "Card has already been used"@
                    } else {
                        old(self)@.available.contains(card) && message@
                            == "Card is already in the deck"@
                    }
                },
            },
    {
        if position(&self.used_cards, card).is_some() {
            return Err(String::from_str("Card has already been used"));
        }
        if position(&self.cards, card).is_some() {
            return Err(String::from_str("Card is already in the deck"));
        }
        proof {
            let old_all = self.cards@ + self.used_cards@;
            let new_all = self.cards@.push(card) + self.used_cards@;
            let n = self.cards@.len() as int;
            assert forall|a: int, b: int|
                0 <= a < new_all.len() && 0 <= b < new_all.len() && a != b implies new_all[a]
                != new_all[b] by {
                if a != n && b != n {
                    let oa = if a < n { a } else { a - 1 };
                    let ob = if b < n { b } else { b - 1 };
                    assert(new_all[a] == old_all[oa]);
                    assert(new_all[b] == old_all[ob]);
                } else {
                    let other = if a == n { b } else { a };
                    if other < n {
                        assert(self.cards@[other] == new_all[other]);
                    } else {
                        assert(self.used_cards@[other - n - 1] == new_all[other]);
                    }
                }
            }
        }
        self.cards.push(card);
        Ok(())
    }

    /// How many cards are still available.
    pub fn remaining_cards(&self) -> (count: usize)
        ensures
            count == self@.available.len(),
    {
        self.cards.len()
    }

    /// The used cards, in the order in which they left the available pile.
    pub fn used_cards(&self) -> (used: &[Card])
        ensures
            used@ == self@.used,
    {
        self.used_cards.as_slice()
    }

    /// Moves a given card from the available pile to the used pile. A card
    /// that is not available is reported and the deck stays as it is.
    pub fn remove_card(&mut self, card: &Card) -> (result: Result<(), String>)
        requires
            old(self)@.wf(),
        ensures
            final(self)@.wf(),
            match result {
                Ok(_) => exists|i: int| #[trigger]
                    moved(old(self)@, final(self)@, i) && old(self)@.available[i] == *card,
                Err(message) => {
                    &&& !old(self)@.available.contains(*card)
                    &&& final(self)@ == old(self)@
                    &&& message@ == "Card not found in deck"@
                },
            },
    {
        match position(&self.cards, *card) {
            Some(index) => {
                let ghost before = self@;
                proof {
                    let after = DeckView {
                        available: before.available.remove(index as int),
                        used: before.used.push(*card),
                    };
                    lemma_move_keeps_wf(before, after, index as int);
                }
                let removed = self.cards.remove(index);
                self.used_cards.push(removed);
                assert(moved(before, self@, index as int));
                Ok(())
            },
            None => Err(String::from_str("Card not found in deck")),
        }
    }
}

/// A run of draws: each state of the deck follows from the one before it by
/// one draw, and `drawn` lists what the draws gave.
pub open spec fn is_draw_run(states: Seq<DeckView>, drawn: Seq<Option<Card>>) -> bool {
    &&& states.len() == drawn.len() + 1
    &&& forall|k: int|
        0 <= k < drawn.len() ==> is_draw(states[k], states[k + 1], #[trigger] drawn[k])
}

/// How many of the first `k` draws from a full deck give a card.
pub open spec fn cards_given(k: int) -> int {
    if k < 52 {
        k
    } else {
        52
    }
}

/// Where a run of draws from a fresh deck stands after `k` draws.
proof fn lemma_draw_run_state(states: Seq<DeckView>, drawn: Seq<Option<Card>>, k: int)
    requires
        is_draw_run(states, drawn),
        states[0] == DeckView::fresh(),
        0 <= k <= drawn.len(),
    ensures
        states[k].wf(),
        states[k].available.len() == 52 - cards_given(k),
        states[k].used.len() == cards_given(k),
        forall|j: int| 0 <= j < cards_given(k) ==> drawn[j] == Some(states[k].used[j]),
        forall|j: int| 52 <= j < k ==> drawn[j] is None,
    decreases k,
{
    if k == 0 {
        lemma_standard_deck();
    } else {
        lemma_draw_run_state(states, drawn, k - 1);
        let before = states[k - 1];
        let after = states[k];
        assert(is_draw(before, after, drawn[k - 1]));
        match drawn[k - 1] {
            Some(card) => {
                let i = choose|i: int| #[trigger]
                    moved(before, after, i) && before.available[i] == card;
                lemma_move_keeps_wf(before, after, i);
            },
            None => {},
        }
    }
}

/// Drawing from a fresh deck: the first fifty-two draws each give a card, no
/// card comes twice, and every draw after them finds the deck exhausted.
pub proof fn lemma_drawing_a_fresh_deck(states: Seq<DeckView>, drawn: Seq<Option<Card>>)
    requires
        is_draw_run(states, drawn),
        states[0] == DeckView::fresh(),
    ensures
        DeckView::fresh().available.len() == 52,
        DeckView::fresh().used.len() == 0,
        forall|k: int| 0 <= k < drawn.len() ==> (#[trigger] drawn[k] is Some <==> k < 52),
        forall|j: int, k: int|
            0 <= j < k < drawn.len() && k < 52 ==> #[trigger] drawn[j] != #[trigger] drawn[k],
{
    let n = drawn.len() as int;
    lemma_draw_run_state(states, drawn, n);
    let last = states[n];
    assert forall|j: int, k: int| 0 <= j < k < n && k < 52 implies #[trigger] drawn[j]
        != #[trigger] drawn[k] by {
        let all = last.available + last.used;
        let offset = last.available.len() as int;
        assert(all[offset + j] == last.used[j]);
        assert(all[offset + k] == last.used[k]);
    }
}

} // verus!
