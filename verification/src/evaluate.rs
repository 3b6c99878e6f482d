//! The evaluator: from cards to the best hand they make.

use crate::card::{Card, Rank, Suit};
use crate::hand::{
    agrees, as_tally, best_hand, best_kicker, descending, flush, flush_in, four_of_a_kind,
    full_house, highest_run, highest_with, leading, pair, rank_tally, royal_flush, royal_in,
    straight, straight_flush, straight_flush_in, straight_high, suit_tally, tally_of_ranks,
    three_of_a_kind, two_pair, without, Evaluation, HandEvaluation, HandRank,
};
use vstd::prelude::*;

verus! {

/// A tally with one more card of value `v`.
pub open spec fn bumped(tally: Seq<nat>, v: int) -> Seq<nat> {
    tally.update(v, tally[v] + 1)
}

/// Adding a rank to a list bumps its tally at the rank's value.
pub proof fn lemma_tally_of_ranks_push(ranks: Seq<Rank>, rank: Rank)
    ensures
        tally_of_ranks(ranks.push(rank)) == bumped(tally_of_ranks(ranks), rank.spec_value()),
{
    broadcast use vstd::seq_lib::group_to_multiset_ensures;

    assert(tally_of_ranks(ranks.push(rank)) =~= bumped(
        tally_of_ranks(ranks),
        rank.spec_value(),
    ));
}

/// Adding a card bumps the tally of its suit at its value and leaves the
/// tallies of the other suits alone.
pub proof fn lemma_suit_tally_push(cards: Seq<Card>, card: Card, suit: Suit)
    ensures
        suit_tally(cards.push(card), suit) == if card.suit == suit {
            bumped(suit_tally(cards, suit), card.rank.spec_value())
        } else {
            suit_tally(cards, suit)
        },
{
    broadcast use vstd::seq_lib::group_to_multiset_ensures;

    if card.suit == suit {
        assert(suit_tally(cards.push(card), suit) =~= bumped(
            suit_tally(cards, suit),
            card.rank.spec_value(),
        ));
    } else {
        assert(suit_tally(cards.push(card), suit) =~= suit_tally(cards, suit));
    }
}

/// Adding a card bumps the tally of all cards at its value.
pub proof fn lemma_rank_tally_push(cards: Seq<Card>, card: Card)
    ensures
        rank_tally(cards.push(card)) == bumped(rank_tally(cards), card.rank.spec_value()),
{
    lemma_suit_tally_push(cards, card, Suit::Spades);
    lemma_suit_tally_push(cards, card, Suit::Hearts);
    lemma_suit_tally_push(cards, card, Suit::Diamonds);
    lemma_suit_tally_push(cards, card, Suit::Clubs);
    assert(rank_tally(cards.push(card)) =~= bumped(rank_tally(cards), card.rank.spec_value()));
}

/// The tallies of no cards are empty.
pub proof fn lemma_tally_of_nothing()
    ensures
        tally_of_ranks(Seq::empty()) == Seq::new(15, |v: int| 0nat),
        rank_tally(Seq::empty()) == Seq::new(15, |v: int| 0nat),
        forall|suit: Suit| #[trigger] suit_tally(Seq::empty(), suit) == Seq::new(15, |v: int| 0nat),
{
    broadcast use vstd::seq_lib::group_to_multiset_ensures;

    assert(tally_of_ranks(Seq::empty()) =~= Seq::new(15, |v: int| 0nat));
    assert forall|suit: Suit| #[trigger]
        suit_tally(Seq::empty(), suit) == Seq::new(15, |v: int| 0nat) by {
        assert(suit_tally(Seq::empty(), suit) =~= Seq::new(15, |v: int| 0nat));
    }
    assert(rank_tally(Seq::empty()) =~= Seq::new(15, |v: int| 0nat));
}

/// A tally of fifteen zeros.
fn empty_tally() -> (counts: Vec<usize>)
    ensures
        counts.len() == 15,
        forall|v: int| 0 <= v < 15 ==> counts[v] == 0,
        as_tally(counts@) == Seq::new(15, |v: int| 0nat),
{
    let counts = vec![0usize; 15];
    assert(as_tally(counts@) =~= Seq::new(15, |v: int| 0nat));
    counts
}

/// Counts a list of ranks by value.
fn tally_ranks(ranks: &[Rank]) -> (counts: Vec<usize>)
    ensures
        counts.len() == 15,
        as_tally(counts@) == tally_of_ranks(ranks@),
{
    let mut counts = empty_tally();
    let mut i: usize = 0;
    proof {
        lemma_tally_of_nothing();
        assert(ranks@.take(0) =~= Seq::empty());
    }
    while i < ranks.len()
        invariant
            i <= ranks.len(),
            counts.len() == 15,
            as_tally(counts@) == tally_of_ranks(ranks@.take(i as int)),
            forall|v: int| 0 <= v < 15 ==> counts[v] <= i,
        decreases ranks.len() - i,
    {
        let rank = ranks[i];
        let v = rank.value() as usize;
        proof {
            assert(ranks@.take(i + 1) =~= ranks@.take(i as int).push(rank));
            lemma_tally_of_ranks_push(ranks@.take(i as int), rank);
        }
        let ghost before = counts@;
        counts.set(v, counts[v] + 1);
        assert(as_tally(counts@) =~= bumped(as_tally(before), v as int));
        i += 1;
    }
    assert(ranks@.take(ranks.len() as int) =~= ranks@);
    counts
}

/// Counts the cards by rank: the counter at each rank value says how many
/// cards have that rank. The result has fifteen counters, of which those at 0
/// and 1 stay empty.
pub fn count_ranks(cards: &[Card]) -> (counts: Vec<usize>)
    ensures
        counts.len() == 15,
        as_tally(counts@) == rank_tally(cards@),
{
    let mut counts = empty_tally();
    let mut i: usize = 0;
    proof {
        lemma_tally_of_nothing();
        assert(cards@.take(0) =~= Seq::empty());
    }
    while i < cards.len()
        invariant
            i <= cards.len(),
            counts.len() == 15,
            as_tally(counts@) == rank_tally(cards@.take(i as int)),
            forall|v: int| 0 <= v < 15 ==> counts[v] <= i,
        decreases cards.len() - i,
    {
        let card = cards[i];
        let v = card.rank.value() as usize;
        proof {
            assert(cards@.take(i + 1) =~= cards@.take(i as int).push(card));
            lemma_rank_tally_push(cards@.take(i as int), card);
        }
        let ghost before = counts@;
        counts.set(v, counts[v] + 1);
        assert(as_tally(counts@) =~= bumped(as_tally(before), v as int));
        i += 1;
    }
    assert(cards@.take(cards.len() as int) =~= cards@);
    counts
}

/// The ranks of the cards of one suit, in the order of the cards.
fn suit_ranks(cards: &[Card], suit: Suit) -> (ranks: Vec<Rank>)
    ensures
        tally_of_ranks(ranks@) == suit_tally(cards@, suit),
{
    let mut ranks: Vec<Rank> = Vec::new();
    let mut i: usize = 0;
    proof {
        lemma_tally_of_nothing();
        assert(cards@.take(0) =~= Seq::empty());
    }
    while i < cards.len()
        invariant
            i <= cards.len(),
            tally_of_ranks(ranks@) == suit_tally(cards@.take(i as int), suit),
        decreases cards.len() - i,
    {
        let card = cards[i];
        proof {
            assert(cards@.take(i + 1) =~= cards@.take(i as int).push(card));
            lemma_suit_tally_push(cards@.take(i as int), card, suit);
            lemma_tally_of_ranks_push(ranks@, card.rank);
        }
        if card.suit == suit {
            ranks.push(card.rank);
        }
        i += 1;
    }
    assert(cards@.take(cards.len() as int) =~= cards@);
    ranks
}

/// The ranks of all the cards, in the order of the cards.
fn all_ranks(cards: &[Card]) -> (ranks: Vec<Rank>)
    ensures
        tally_of_ranks(ranks@) == rank_tally(cards@),
{
    let mut ranks: Vec<Rank> = Vec::new();
    let mut i: usize = 0;
    proof {
        lemma_tally_of_nothing();
        assert(cards@.take(0) =~= Seq::empty());
    }
    while i < cards.len()
        invariant
            i <= cards.len(),
            tally_of_ranks(ranks@) == rank_tally(cards@.take(i as int)),
        decreases cards.len() - i,
    {
        let card = cards[i];
        proof {
            assert(cards@.take(i + 1) =~= cards@.take(i as int).push(card));
            lemma_rank_tally_push(cards@.take(i as int), card);
            lemma_tally_of_ranks_push(ranks@, card.rank);
        }
        ranks.push(card.rank);
        i += 1;
    }
    assert(cards@.take(cards.len() as int) =~= cards@);
    ranks
}

/// The highest rank value that the tally holds at least `need` times, or 0.
fn highest_at_least(tally: &Vec<usize>, need: usize) -> (high: u8)
    requires
        tally.len() == 15,
    ensures
        high == highest_with(as_tally(tally@), need as nat, 14),
        high == 0 || 2 <= high <= 14,
{
    let mut v: u8 = 14;
    while v >= 2
        invariant
            1 <= v <= 14,
            tally.len() == 15,
            highest_with(as_tally(tally@), need as nat, 14) == highest_with(
                as_tally(tally@),
                need as nat,
                v as int,
            ),
        decreases v,
    {
        if tally[v as usize] >= need {
            return v;
        }
        v -= 1;
    }
    0
}

/// The tally with the rank of value `v` emptied.
fn emptied(tally: Vec<usize>, v: u8) -> (rest: Vec<usize>)
    requires
        tally.len() == 15,
        v < 15,
    ensures
        rest.len() == 15,
        as_tally(rest@) == without(as_tally(tally@), v as int),
{
    let mut rest = tally;
    rest.set(v as usize, 0);
    assert(as_tally(rest@) =~= without(as_tally(tally@), v as int));
    rest
}

/// The best card of a tally, or the Two if it holds none.
fn kicker_of(tally: &Vec<usize>) -> (kicker: Rank)
    requires
        tally.len() == 15,
    ensures
        kicker == best_kicker(as_tally(tally@)),
{
    let high = highest_at_least(tally, 1);
    if high == 0 {
        Rank::Two
    } else {
        Rank::with_value(high)
    }
}

/// The ranks of a tally from the Ace down, each as often as it occurs, cut
/// off after `limit` ranks.
fn top_ranks(tally: &Vec<usize>, limit: usize) -> (ranks: Vec<Rank>)
    requires
        tally.len() == 15,
    ensures
        ranks@ == leading(descending(as_tally(tally@), 14), limit as nat),
{
    let mut ranks: Vec<Rank> = Vec::new();
    let ghost mut listed: Seq<Rank> = Seq::empty();
    let mut v: u8 = 14;
    assert(listed + descending(as_tally(tally@), 14) =~= descending(as_tally(tally@), 14));
    while v >= 2
        invariant
            1 <= v <= 14,
            tally.len() == 15,
            listed + descending(as_tally(tally@), v as int) == descending(as_tally(tally@), 14),
            ranks@ == leading(listed, limit as nat),
        decreases v,
    {
        let rank = Rank::with_value(v);
        let ghost before = listed;
        let mut k: usize = 0;
        assert(listed =~= before + Seq::new(0, |i: int| rank));
        while k < tally[v as usize]
            invariant
                2 <= v <= 14,
                tally.len() == 15,
                k <= tally[v as int],
                listed == before + Seq::new(k as nat, |i: int| rank),
                ranks@ == leading(listed, limit as nat),
            decreases tally[v as int] - k,
        {
            if ranks.len() < limit {
                ranks.push(rank);
            }
            proof {
                assert(listed.push(rank) =~= before + Seq::new((k + 1) as nat, |i: int| rank));
                assert(ranks@ =~= leading(listed.push(rank), limit as nat));
                listed = listed.push(rank);
            }
            k += 1;
        }
        proof {
            let tally_seq = as_tally(tally@);
            assert(Seq::new(tally_seq[v as int], |i: int| Rank::of_value(v as int)) =~= Seq::new(
                k as nat,
                |i: int| rank,
            ));
            assert(listed + descending(tally_seq, v - 1) =~= before + descending(
                tally_seq,
                v as int,
            ));
        }
        v -= 1;
    }
    assert(listed =~= listed + descending(as_tally(tally@), v as int));
    ranks
}

/// The high rank of the best straight that a tally holds.
fn straight_in(tally: &Vec<usize>) -> (high: Option<Rank>)
    requires
        tally.len() == 15,
    ensures
        high == straight_high(as_tally(tally@)),
{
    let mut v: u8 = 14;
    while v >= 6
        invariant
            5 <= v <= 14,
            tally.len() == 15,
            highest_run(as_tally(tally@), 14) == highest_run(as_tally(tally@), v as int),
        decreases v,
    {
        let top = v as usize;
        if tally[top] > 0 && tally[top - 1] > 0 && tally[top - 2] > 0 && tally[top - 3] > 0
            && tally[top - 4] > 0 {
            return Some(Rank::with_value(v));
        }
        v -= 1;
    }
    if tally[14] > 0 && tally[2] > 0 && tally[3] > 0 && tally[4] > 0 && tally[5] > 0 {
        Some(Rank::Five)
    } else {
        None
    }
}

/// Finds the best straight among `ranks`, whatever their order and however
/// often each occurs: the high rank of the highest run of five consecutive
/// values, else the Five if Ace, Two, Three, Four and Five are all there (the
/// wheel), else nothing.
pub fn find_straight(ranks: &[Rank]) -> (high: Option<Rank>)
    ensures
        high == straight_high(tally_of_ranks(ranks@)),
{
    let tally = tally_ranks(ranks);
    straight_in(&tally)
}

/// An evaluation with a single tie-break rank.
fn single(rank: HandRank, high: Rank) -> (evaluation: HandEvaluation)
    ensures
        evaluation@ == (Evaluation { category: rank, tie_break: seq![high] }),
{
    let mut high_cards: Vec<Rank> = Vec::new();
    high_cards.push(high);
    assert(high_cards@ =~= seq![high]);
    HandEvaluation::new(rank, high_cards)
}

/// An evaluation whose tie-break is one rank followed by a list of kickers.
fn headed(rank: HandRank, head: Rank, kickers: Vec<Rank>) -> (evaluation: HandEvaluation)
    ensures
        evaluation@ == (Evaluation { category: rank, tie_break: seq![head] + kickers@ }),
{
    let mut high_cards: Vec<Rank> = Vec::new();
    high_cards.push(head);
    let ghost tail = kickers@;
    let mut kickers = kickers;
    high_cards.append(&mut kickers);
    assert(high_cards@ =~= seq![head] + tail);
    HandEvaluation::new(rank, high_cards)
}

/// Whether one suit holds Ace, King, Queen, Jack and Ten.
fn holds_royal(cards: &[Card], suit: Suit) -> (found: bool)
    ensures
        found == royal_in(cards@, suit),
{
    let ranks = suit_ranks(cards, suit);
    let tally = tally_ranks(ranks.as_slice());
    tally[14] > 0 && tally[13] > 0 && tally[12] > 0 && tally[11] > 0 && tally[10] > 0
}

/// A royal flush: some suit holds Ace, King, Queen, Jack and Ten. The only
/// tie-break rank is the Ace.
pub fn check_royal_flush(cards: &[Card]) -> (found: Option<HandEvaluation>)
    ensures
        agrees(found, royal_flush(cards@)),
{
    if holds_royal(cards, Suit::Spades) || holds_royal(cards, Suit::Hearts) || holds_royal(
        cards,
        Suit::Diamonds,
    ) || holds_royal(cards, Suit::Clubs) {
        Some(single(HandRank::RoyalFlush, Rank::Ace))
    } else {
        None
    }
}

/// The straight flush of one suit.
fn straight_flush_of(cards: &[Card], suit: Suit) -> (found: Option<HandEvaluation>)
    ensures
        agrees(found, straight_flush_in(cards@, suit)),
{
    let ranks = suit_ranks(cards, suit);
    match find_straight(ranks.as_slice()) {
        Some(high) => Some(single(HandRank::StraightFlush, high)),
        None => None,
    }
}

/// A straight flush: a straight inside one suit. The suits are tried as
/// Spades, Hearts, Diamonds, Clubs and the first that holds a straight
/// decides; the tie-break is the straight's high rank.
pub fn check_straight_flush(cards: &[Card]) -> (found: Option<HandEvaluation>)
    ensures
        agrees(found, straight_flush(cards@)),
{
    if let Some(evaluation) = straight_flush_of(cards, Suit::Spades) {
        return Some(evaluation);
    }
    if let Some(evaluation) = straight_flush_of(cards, Suit::Hearts) {
        return Some(evaluation);
    }
    if let Some(evaluation) = straight_flush_of(cards, Suit::Diamonds) {
        return Some(evaluation);
    }
    straight_flush_of(cards, Suit::Clubs)
}

/// Four of a kind: the highest rank held at least four times, then the
/// highest other rank among the cards (the Two if there is no other card).
pub fn check_four_of_a_kind(cards: &[Card]) -> (found: Option<HandEvaluation>)
    ensures
        agrees(found, four_of_a_kind(cards@)),
{
    let tally = count_ranks(cards);
    let quad = highest_at_least(&tally, 4);
    if quad == 0 {
        return None;
    }
    let rest = emptied(tally, quad);
    let mut high_cards: Vec<Rank> = Vec::new();
    high_cards.push(Rank::with_value(quad));
    high_cards.push(kicker_of(&rest));
    assert(high_cards@ =~= four_of_a_kind(cards@)->0.tie_break);
    Some(HandEvaluation::new(HandRank::FourOfAKind, high_cards))
}

/// A full house: the highest rank held at least three times, then the
/// highest other rank held at least twice.
pub fn check_full_house(cards: &[Card]) -> (found: Option<HandEvaluation>)
    ensures
        agrees(found, full_house(cards@)),
{
    let tally = count_ranks(cards);
    let trips = highest_at_least(&tally, 3);
    let rest = emptied(tally, trips);
    let pair = highest_at_least(&rest, 2);
    if trips == 0 || pair == 0 {
        return None;
    }
    let mut high_cards: Vec<Rank> = Vec::new();
    high_cards.push(Rank::with_value(trips));
    high_cards.push(Rank::with_value(pair));
    assert(high_cards@ =~= full_house(cards@)->0.tie_break);
    Some(HandEvaluation::new(HandRank::FullHouse, high_cards))
}

/// The flush of one suit.
fn flush_of(cards: &[Card], suit: Suit) -> (found: Option<HandEvaluation>)
    ensures
        agrees(found, flush_in(cards@, suit)),
{
    let ranks = suit_ranks(cards, suit);
    let tally = tally_ranks(ranks.as_slice());
    let high_cards = top_ranks(&tally, 5);
    if high_cards.len() == 5 {
        assert(high_cards@ =~= descending(suit_tally(cards@, suit), 14).take(5));
        Some(HandEvaluation::new(HandRank::Flush, high_cards))
    } else {
        None
    }
}

/// A flush: a suit with at least five cards. The suits are tried as Spades,
/// Hearts, Diamonds, Clubs and the first with five cards decides; the
/// tie-break is its five highest ranks, from the highest down.
pub fn check_flush(cards: &[Card]) -> (found: Option<HandEvaluation>)
    ensures
        agrees(found, flush(cards@)),
{
    if let Some(evaluation) = flush_of(cards, Suit::Spades) {
        return Some(evaluation);
    }
    if let Some(evaluation) = flush_of(cards, Suit::Hearts) {
        return Some(evaluation);
    }
    if let Some(evaluation) = flush_of(cards, Suit::Diamonds) {
        return Some(evaluation);
    }
    flush_of(cards, Suit::Clubs)
}

/// A straight among the ranks of all the cards; the tie-break is its high
/// rank, the Five for the wheel.
pub fn check_straight(cards: &[Card]) -> (found: Option<HandEvaluation>)
    ensures
        agrees(found, straight(cards@)),
{
    let ranks = all_ranks(cards);
    match find_straight(ranks.as_slice()) {
        Some(high) => Some(single(HandRank::Straight, high)),
        None => None,
    }
}

/// Three of a kind: the highest rank held at least three times, then the two
/// highest cards of other ranks, from the higher down.
pub fn check_three_of_a_kind(cards: &[Card]) -> (found: Option<HandEvaluation>)
    ensures
        agrees(found, three_of_a_kind(cards@)),
{
    let tally = count_ranks(cards);
    let trips = highest_at_least(&tally, 3);
    if trips == 0 {
        return None;
    }
    let rest = emptied(tally, trips);
    let kickers = top_ranks(&rest, 2);
    Some(headed(HandRank::ThreeOfAKind, Rank::with_value(trips), kickers))
}

/// Two pair: the two highest ranks held at least twice each, the higher
/// first, then the highest card of any other rank (the Two if there is none).
pub fn check_two_pair(cards: &[Card]) -> (found: Option<HandEvaluation>)
    ensures
        agrees(found, two_pair(cards@)),
{
    let tally = count_ranks(cards);
    let high = highest_at_least(&tally, 2);
    let rest = emptied(tally, high);
    let low = highest_at_least(&rest, 2);
    if high == 0 || low == 0 {
        return None;
    }
    let rest = emptied(rest, low);
    let mut high_cards: Vec<Rank> = Vec::new();
    high_cards.push(Rank::with_value(high));
    high_cards.push(Rank::with_value(low));
    high_cards.push(kicker_of(&rest));
    assert(high_cards@ =~= two_pair(cards@)->0.tie_break);
    Some(HandEvaluation::new(HandRank::TwoPair, high_cards))
}

/// A pair: the highest rank held at least twice, then the three highest
/// cards of other ranks, from the highest down.
pub fn check_pair(cards: &[Card]) -> (found: Option<HandEvaluation>)
    ensures
        agrees(found, pair(cards@)),
{
    let tally = count_ranks(cards);
    let paired = highest_at_least(&tally, 2);
    if paired == 0 {
        return None;
    }
    let rest = emptied(tally, paired);
    let kickers = top_ranks(&rest, 3);
    Some(headed(HandRank::Pair, Rank::with_value(paired), kickers))
}

/// Evaluates two hole cards together with the community cards: the result is
/// the strongest category that the cards make, tried from the royal flush
/// down to the high card, with that category's tie-break ranks.
pub fn evaluate_hand(hole_cards: &[Card; 2], community_cards: &[Card]) -> (evaluation:
    HandEvaluation)
    ensures
        evaluation@ == best_hand(hole_cards@ + community_cards@),
{
    let mut all_cards: Vec<Card> = Vec::new();
    all_cards.push(hole_cards[0]);
    all_cards.push(hole_cards[1]);
    let mut i: usize = 0;
    while i < community_cards.len()
        invariant
            i <= community_cards.len(),
            all_cards@ == hole_cards@ + community_cards@.take(i as int),
        decreases community_cards.len() - i,
    {
        all_cards.push(community_cards[i]);
        assert(community_cards@.take(i + 1) =~= community_cards@.take(i as int).push(
            community_cards[i as int],
        ));
        i += 1;
    }
    assert(community_cards@.take(community_cards.len() as int) =~= community_cards@);
    let cards = all_cards.as_slice();

    if let Some(evaluation) = check_royal_flush(cards) {
        return evaluation;
    }
    if let Some(evaluation) = check_straight_flush(cards) {
        return evaluation;
    }
    if let Some(evaluation) = check_four_of_a_kind(cards) {
        return evaluation;
    }
    if let Some(evaluation) = check_full_house(cards) {
        return evaluation;
    }
    if let Some(evaluation) = check_flush(cards) {
        return evaluation;
    }
    if let Some(evaluation) = check_straight(cards) {
        return evaluation;
    }
    if let Some(evaluation) = check_three_of_a_kind(cards) {
        return evaluation;
    }
    if let Some(evaluation) = check_two_pair(cards) {
        return evaluation;
    }
    if let Some(evaluation) = check_pair(cards) {
        return evaluation;
    }
    let tally = count_ranks(cards);
    HandEvaluation::new(HandRank::HighCard, top_ranks(&tally, 5))
}

/// The best hand of a set of cards does not depend on the order in which the
/// cards are given: two lists that hold the same cards equally often, such as
/// the hole and community cards of one deal handed over in another order,
/// have the same category and the same tie-break ranks.
pub proof fn lemma_best_hand_ignores_order(first: Seq<Card>, second: Seq<Card>)
    requires
        first.to_multiset() == second.to_multiset(),
    ensures
        best_hand(first) == best_hand(second),
{
    assert(rank_tally(first) =~= rank_tally(second));
    assert forall|suit: Suit| #[trigger] suit_tally(first, suit) == suit_tally(second, suit) by {
        assert(suit_tally(first, suit) =~= suit_tally(second, suit));
    }
}

} // verus!
