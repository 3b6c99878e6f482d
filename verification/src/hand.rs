//! Hand categories, evaluations, and what the best hand of a set of cards is.
//!
//! A set of cards is read through tallies: sequences of fifteen counters, one
//! per rank value, of which only the places 2 to 14 are ever used. The tally of
//! a suit counts the cards of that suit by rank; the tally of all cards counts
//! them by rank alone. Both are taken from the multiset of the cards, so
//! nothing that is built on them can depend on the order of the cards.

use crate::card::{Card, Rank, Suit};
use vstd::prelude::*;
use vstd::string::*;

verus! {

/// The ten hand categories, listed from the weakest to the strongest.
#[derive(Debug, Clone, Copy, PartialEq, Eq, Hash, PartialOrd, Ord, Structural)]
pub enum HandRank {
    HighCard,
    Pair,
    TwoPair,
    ThreeOfAKind,
    Straight,
    Flush,
    FullHouse,
    FourOfAKind,
    StraightFlush,
    RoyalFlush,
}

/// What evaluating a hand gives: its category, and the ranks that break ties
/// inside the category, the most significant first.
#[derive(Debug, Clone)]
pub struct HandEvaluation {
    pub rank: HandRank,
    pub high_cards: Vec<Rank>,
}

/// The mathematical content of a `HandEvaluation`.
pub struct Evaluation {
    pub category: HandRank,
    pub tie_break: Seq<Rank>,
}

impl View for HandEvaluation {
    type V = Evaluation;

    open spec fn view(&self) -> Evaluation {
        Evaluation { category: self.rank, tie_break: self.high_cards@ }
    }
}

impl HandRank {
    /// The strength of a category: 1 for a high card up to 10 for a royal flush.
    pub open spec fn spec_strength(self) -> int {
        match self {
            HandRank::HighCard => 1,
            HandRank::Pair => 2,
            HandRank::TwoPair => 3,
            HandRank::ThreeOfAKind => 4,
            HandRank::Straight => 5,
            HandRank::Flush => 6,
            HandRank::FullHouse => 7,
            HandRank::FourOfAKind => 8,
            HandRank::StraightFlush => 9,
            HandRank::RoyalFlush => 10,
        }
    }

    /// The name a category is printed as.
    pub open spec fn name(self) -> Seq<char> {
        match self {
            HandRank::HighCard => "High Card"@,
            HandRank::Pair => "Pair"@,
            HandRank::TwoPair => "Two Pair"@,
            HandRank::ThreeOfAKind => "Three of a Kind"@,
            HandRank::Straight => "Straight"@,
            HandRank::Flush => "Flush"@,
            HandRank::FullHouse => "Full House"@,
            HandRank::FourOfAKind => "Four of a Kind"@,
            HandRank::StraightFlush => "Straight Flush"@,
            HandRank::RoyalFlush => "Royal Flush"@,
        }
    }

    /// The number by which categories are ordered.
    pub fn strength(&self) -> (s: u8)
        ensures
            s == self.spec_strength(),
    {
        match self {
            HandRank::HighCard => 1,
            HandRank::Pair => 2,
            HandRank::TwoPair => 3,
            HandRank::ThreeOfAKind => 4,
            HandRank::Straight => 5,
            HandRank::Flush => 6,
            HandRank::FullHouse => 7,
            HandRank::FourOfAKind => 8,
            HandRank::StraightFlush => 9,
            HandRank::RoyalFlush => 10,
        }
    }

    /// The category's name as text.
    pub fn to_string(&self) -> (text: String)
        ensures
            text@ == self.name(),
    {
        match self {
            HandRank::HighCard => String::from_str("High Card"),
            HandRank::Pair => String::from_str("Pair"),
            HandRank::TwoPair => String::from_str("Two Pair"),
            HandRank::ThreeOfAKind => String::from_str("Three of a Kind"),
            HandRank::Straight => String::from_str("Straight"),
            HandRank::Flush => String::from_str("Flush"),
            HandRank::FullHouse => String::from_str("Full House"),
            HandRank::FourOfAKind => String::from_str("Four of a Kind"),
            HandRank::StraightFlush => String::from_str("Straight Flush"),
            HandRank::RoyalFlush => String::from_str("Royal Flush"),
        }
    }
}

impl HandEvaluation {
    pub fn new(rank: HandRank, high_cards: Vec<Rank>) -> (evaluation: HandEvaluation)
        ensures
            evaluation@ == (Evaluation { category: rank, tie_break: high_cards@ }),
    {
        HandEvaluation { rank, high_cards }
    }
}

/// How often a card occurs among `cards`.
pub open spec fn copies(cards: Seq<Card>, card: Card) -> nat {
    cards.to_multiset().count(card)
}

/// The tally of one suit: at each rank value, how many cards of the suit have it.
pub open spec fn suit_tally(cards: Seq<Card>, suit: Suit) -> Seq<nat> {
    Seq::new(
        15,
        |v: int|
            if 2 <= v <= 14 {
                copies(cards, Card { rank: Rank::of_value(v), suit })
            } else {
                0
            },
    )
}

/// The tally of all cards: at each rank value, how many cards have it.
pub open spec fn rank_tally(cards: Seq<Card>) -> Seq<nat> {
    Seq::new(
        15,
        |v: int|
            suit_tally(cards, Suit::Spades)[v] + suit_tally(cards, Suit::Hearts)[v] + suit_tally(
                cards,
                Suit::Diamonds,
            )[v] + suit_tally(cards, Suit::Clubs)[v],
    )
}

/// The tally of a list of bare ranks.
pub open spec fn tally_of_ranks(ranks: Seq<Rank>) -> Seq<nat> {
    Seq::new(
        15,
        |v: int|
            if 2 <= v <= 14 {
                ranks.to_multiset().count(Rank::of_value(v))
            } else {
                0
            },
    )
}

/// The counters of an executable tally, as numbers.
pub open spec fn as_tally(counts: Seq<usize>) -> Seq<nat> {
    Seq::new(counts.len(), |v: int| counts[v] as nat)
}

/// The tally with the rank of value `v` taken out.
pub open spec fn without(tally: Seq<nat>, v: int) -> Seq<nat> {
    if 0 <= v < tally.len() {
        tally.update(v, 0)
    } else {
        tally
    }
}

/// The highest rank value, no higher than `top`, that occurs at least `need`
/// times; 0 if there is none.
pub open spec fn highest_with(tally: Seq<nat>, need: nat, top: int) -> int
    decreases top,
{
    if top < 2 {
        0
    } else if tally[top] >= need {
        top
    } else {
        highest_with(tally, need, top - 1)
    }
}

/// The ranks of a tally from the value `top` downwards, each as often as it occurs.
pub open spec fn descending(tally: Seq<nat>, top: int) -> Seq<Rank>
    decreases top,
{
    if top < 2 {
        Seq::empty()
    } else {
        Seq::new(tally[top], |i: int| Rank::of_value(top)) + descending(tally, top - 1)
    }
}

/// The first `limit` ranks of a list, or all of them if there are fewer.
pub open spec fn leading(ranks: Seq<Rank>, limit: nat) -> Seq<Rank> {
    if ranks.len() <= limit {
        ranks
    } else {
        ranks.take(limit as int)
    }
}

/// The highest rank of a tally, or the Two if the tally is empty.
pub open spec fn best_kicker(tally: Seq<nat>) -> Rank {
    let high = highest_with(tally, 1, 14);
    if high == 0 {
        Rank::Two
    } else {
        Rank::of_value(high)
    }
}

/// Five ranks in a row, the highest of value `high`, all occur.
pub open spec fn run_ends_at(tally: Seq<nat>, high: int) -> bool {
    &&& tally[high] > 0
    &&& tally[high - 1] > 0
    &&& tally[high - 2] > 0
    &&& tally[high - 3] > 0
    &&& tally[high - 4] > 0
}

/// The highest value, no higher than `top`, at which a run of five ends; 0 if
/// there is none. The lowest such run is 2 to 6.
pub open spec fn highest_run(tally: Seq<nat>, top: int) -> int
    decreases top,
{
    if top < 6 {
        0
    } else if run_ends_at(tally, top) {
        top
    } else {
        highest_run(tally, top - 1)
    }
}

/// Ace, Two, Three, Four and Five all occur.
pub open spec fn has_wheel(tally: Seq<nat>) -> bool {
    &&& tally[14] > 0
    &&& tally[2] > 0
    &&& tally[3] > 0
    &&& tally[4] > 0
    &&& tally[5] > 0
}

/// The high rank of the best straight in a tally: that of the highest run of
/// five, else the Five of the wheel, in which the Ace counts low.
pub open spec fn straight_high(tally: Seq<nat>) -> Option<Rank> {
    let high = highest_run(tally, 14);
    if high != 0 {
        Some(Rank::of_value(high))
    } else if has_wheel(tally) {
        Some(Rank::Five)
    } else {
        None
    }
}

/// Ace, King, Queen, Jack and Ten of one suit all occur.
pub open spec fn royal_in(cards: Seq<Card>, suit: Suit) -> bool {
    run_ends_at(suit_tally(cards, suit), 14)
}

pub open spec fn royal_flush(cards: Seq<Card>) -> Option<Evaluation> {
    if royal_in(cards, Suit::Spades) || royal_in(cards, Suit::Hearts) || royal_in(
        cards,
        Suit::Diamonds,
    ) || royal_in(cards, Suit::Clubs) {
        Some(Evaluation { category: HandRank::RoyalFlush, tie_break: seq![Rank::Ace] })
    } else {
        None
    }
}

/// The straight flush of one suit, if the suit holds a straight.
pub open spec fn straight_flush_in(cards: Seq<Card>, suit: Suit) -> Option<Evaluation> {
    match straight_high(suit_tally(cards, suit)) {
        Some(high) => Some(
            Evaluation { category: HandRank::StraightFlush, tie_break: seq![high] },
        ),
        None => None,
    }
}

/// The first of two findings that is one.
pub open spec fn or_else(first: Option<Evaluation>, second: Option<Evaluation>) -> Option<
    Evaluation,
> {
    if first is Some {
        first
    } else {
        second
    }
}

/// The straight flush of the first suit that holds one, the suits taken as
/// Spades, Hearts, Diamonds, Clubs.
pub open spec fn straight_flush(cards: Seq<Card>) -> Option<Evaluation> {
    or_else(
        straight_flush_in(cards, Suit::Spades),
        or_else(
            straight_flush_in(cards, Suit::Hearts),
            or_else(
                straight_flush_in(cards, Suit::Diamonds),
                straight_flush_in(cards, Suit::Clubs),
            ),
        ),
    )
}

/// The highest rank held four times, with the best card beside it.
pub open spec fn four_of_a_kind(cards: Seq<Card>) -> Option<Evaluation> {
    let tally = rank_tally(cards);
    let quad = highest_with(tally, 4, 14);
    if quad == 0 {
        None
    } else {
        Some(
            Evaluation {
                category: HandRank::FourOfAKind,
                tie_break: seq![Rank::of_value(quad), best_kicker(without(tally, quad))],
            },
        )
    }
}

/// The highest rank held three times, with the highest other rank held twice.
pub open spec fn full_house(cards: Seq<Card>) -> Option<Evaluation> {
    let tally = rank_tally(cards);
    let trips = highest_with(tally, 3, 14);
    let pair = highest_with(without(tally, trips), 2, 14);
    if trips == 0 || pair == 0 {
        None
    } else {
        Some(
            Evaluation {
                category: HandRank::FullHouse,
                tie_break: seq![Rank::of_value(trips), Rank::of_value(pair)],
            },
        )
    }
}

/// The flush of one suit: its five highest ranks, if it has five cards.
pub open spec fn flush_in(cards: Seq<Card>, suit: Suit) -> Option<Evaluation> {
    let ranks = descending(suit_tally(cards, suit), 14);
    if ranks.len() >= 5 {
        Some(Evaluation { category: HandRank::Flush, tie_break: ranks.take(5) })
    } else {
        None
    }
}

/// The flush of the first suit that has five cards, the suits taken as Spades,
/// Hearts, Diamonds, Clubs.
pub open spec fn flush(cards: Seq<Card>) -> Option<Evaluation> {
    or_else(
        flush_in(cards, Suit::Spades),
        or_else(
            flush_in(cards, Suit::Hearts),
            or_else(flush_in(cards, Suit::Diamonds), flush_in(cards, Suit::Clubs)),
        ),
    )
}

/// The best straight among the ranks of all cards.
pub open spec fn straight(cards: Seq<Card>) -> Option<Evaluation> {
    match straight_high(rank_tally(cards)) {
        Some(high) => Some(Evaluation { category: HandRank::Straight, tie_break: seq![high] }),
        None => None,
    }
}

/// The highest rank held three times, with the two best cards beside it.
pub open spec fn three_of_a_kind(cards: Seq<Card>) -> Option<Evaluation> {
    let tally = rank_tally(cards);
    let trips = highest_with(tally, 3, 14);
    if trips == 0 {
        None
    } else {
        Some(
            Evaluation {
                category: HandRank::ThreeOfAKind,
                tie_break: seq![Rank::of_value(trips)] + leading(
                    descending(without(tally, trips), 14),
                    2,
                ),
            },
        )
    }
}

/// The two highest ranks held twice, with the best card beside them.
pub open spec fn two_pair(cards: Seq<Card>) -> Option<Evaluation> {
    let tally = rank_tally(cards);
    let high = highest_with(tally, 2, 14);
    let low = highest_with(without(tally, high), 2, 14);
    if high == 0 || low == 0 {
        None
    } else {
        Some(
            Evaluation {
                category: HandRank::TwoPair,
                tie_break: seq![
                    Rank::of_value(high),
                    Rank::of_value(low),
                    best_kicker(without(without(tally, high), low)),
                ],
            },
        )
    }
}

/// The highest rank held twice, with the three best cards beside it.
pub open spec fn pair(cards: Seq<Card>) -> Option<Evaluation> {
    let tally = rank_tally(cards);
    let paired = highest_with(tally, 2, 14);
    if paired == 0 {
        None
    } else {
        Some(
            Evaluation {
                category: HandRank::Pair,
                tie_break: seq![Rank::of_value(paired)] + leading(
                    descending(without(tally, paired), 14),
                    3,
                ),
            },
        )
    }
}

/// The five best cards.
pub open spec fn high_card(cards: Seq<Card>) -> Evaluation {
    Evaluation {
        category: HandRank::HighCard,
        tie_break: leading(descending(rank_tally(cards), 14), 5),
    }
}

/// The best hand among `cards`: the first category, from the strongest down,
/// that the cards make.
pub open spec fn best_hand(cards: Seq<Card>) -> Evaluation {
    if royal_flush(cards) is Some {
        royal_flush(cards)->0
    } else if straight_flush(cards) is Some {
        straight_flush(cards)->0
    } else if four_of_a_kind(cards) is Some {
        four_of_a_kind(cards)->0
    } else if full_house(cards) is Some {
        full_house(cards)->0
    } else if flush(cards) is Some {
        flush(cards)->0
    } else if straight(cards) is Some {
        straight(cards)->0
    } else if three_of_a_kind(cards) is Some {
        three_of_a_kind(cards)->0
    } else if two_pair(cards) is Some {
        two_pair(cards)->0
    } else if pair(cards) is Some {
        pair(cards)->0
    } else {
        high_card(cards)
    }
}

/// An executable finding agrees with a specified one.
pub open spec fn agrees(found: Option<HandEvaluation>, expected: Option<Evaluation>) -> bool {
    match found {
        Some(evaluation) => expected == Some(evaluation@),
        None => expected is None,
    }
}

} // verus!
