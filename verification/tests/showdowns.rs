use holdem_equity::{
    compare_evaluations, compare_hands, verify, Card, HandEvaluation, HandRank, Outcome, Rank,
    Suit,
};

use Rank::{Ace, Eight, Five, Four, Jack, King, Nine, Queen, Seven, Six, Ten, Three, Two};
use Suit::{Clubs, Diamonds, Hearts, Spades};

fn hand(first: (Rank, Suit), second: (Rank, Suit)) -> [Card; 2] {
    [Card::new(first.0, first.1), Card::new(second.0, second.1)]
}

fn board(spec: &[(Rank, Suit)]) -> Vec<Card> {
    spec.iter().map(|&(rank, suit)| Card::new(rank, suit)).collect()
}

fn samples() -> Vec<HandEvaluation> {
    vec![
        HandEvaluation::new(HandRank::HighCard, vec![Ace, King, Queen, Nine, Four]),
        HandEvaluation::new(HandRank::HighCard, vec![Ace, King, Queen, Nine, Five]),
        HandEvaluation::new(HandRank::HighCard, vec![Ace, King]),
        HandEvaluation::new(HandRank::Pair, vec![Two, Five, Four, Three]),
        HandEvaluation::new(HandRank::Pair, vec![Two, Six, Four, Three]),
        HandEvaluation::new(HandRank::Pair, vec![Nine, Five, Four, Three]),
        HandEvaluation::new(HandRank::TwoPair, vec![Eight, Four, Ace]),
        HandEvaluation::new(HandRank::TwoPair, vec![Eight, Four, King]),
        HandEvaluation::new(HandRank::ThreeOfAKind, vec![Eight, Ace, Jack]),
        HandEvaluation::new(HandRank::Straight, vec![Five]),
        HandEvaluation::new(HandRank::Straight, vec![Six]),
        HandEvaluation::new(HandRank::Flush, vec![King, Jack, Nine, Six, Four]),
        HandEvaluation::new(HandRank::FullHouse, vec![Seven, King]),
        HandEvaluation::new(HandRank::FullHouse, vec![Ace, King]),
        HandEvaluation::new(HandRank::FourOfAKind, vec![Ace, King]),
        HandEvaluation::new(HandRank::StraightFlush, vec![Six]),
        HandEvaluation::new(HandRank::RoyalFlush, vec![Ace]),
    ]
}

fn reversed(outcome: Outcome) -> Outcome {
    match outcome {
        Outcome::FirstWins => Outcome::SecondWins,
        Outcome::SecondWins => Outcome::FirstWins,
        Outcome::Tie => Outcome::Tie,
    }
}

#[test]
fn the_higher_category_wins() {
    let pair = HandEvaluation::new(HandRank::Pair, vec![Ace, King, Queen, Jack]);
    let two_pair = HandEvaluation::new(HandRank::TwoPair, vec![Three, Two, Four]);
    assert_eq!(compare_evaluations(&two_pair, &pair), Outcome::FirstWins);
    assert_eq!(compare_evaluations(&pair, &two_pair), Outcome::SecondWins);
}

#[test]
fn the_first_different_rank_decides() {
    let better = HandEvaluation::new(HandRank::Pair, vec![Nine, Ace, King, Three]);
    let worse = HandEvaluation::new(HandRank::Pair, vec![Nine, Ace, Queen, Jack]);
    assert_eq!(compare_evaluations(&better, &worse), Outcome::FirstWins);
    assert_eq!(compare_evaluations(&worse, &better), Outcome::SecondWins);
    let low_pair = HandEvaluation::new(HandRank::Pair, vec![Two, Ace, King, Queen]);
    let high_pair = HandEvaluation::new(HandRank::Pair, vec![Three, Four, Five, Six]);
    assert_eq!(compare_evaluations(&low_pair, &high_pair), Outcome::SecondWins);
}

#[test]
fn equal_evaluations_tie() {
    for sample in samples() {
        assert_eq!(compare_evaluations(&sample, &sample.clone()), Outcome::Tie);
    }
}

#[test]
fn a_longer_list_of_ranks_is_ahead_of_its_own_beginning() {
    let short = HandEvaluation::new(HandRank::HighCard, vec![Ace, King]);
    let long = HandEvaluation::new(HandRank::HighCard, vec![Ace, King, Two]);
    assert_eq!(compare_evaluations(&long, &short), Outcome::FirstWins);
    assert_eq!(compare_evaluations(&short, &long), Outcome::SecondWins);
}

#[test]
fn swapping_the_hands_reverses_the_outcome() {
    let all = samples();
    for first in &all {
        for second in &all {
            assert_eq!(
                compare_evaluations(second, first),
                reversed(compare_evaluations(first, second))
            );
        }
    }
}

#[test]
fn the_comparison_is_transitive() {
    let all = samples();
    for first in &all {
        for second in &all {
            for third in &all {
                let ab = compare_evaluations(first, second);
                let bc = compare_evaluations(second, third);
                let ac = compare_evaluations(first, third);
                if ab != Outcome::SecondWins && bc != Outcome::SecondWins {
                    assert_ne!(ac, Outcome::SecondWins);
                    if ab == Outcome::FirstWins || bc == Outcome::FirstWins {
                        assert_eq!(ac, Outcome::FirstWins);
                    }
                }
            }
        }
    }
}

#[test]
fn only_equal_samples_tie() {
    let all = samples();
    for (i, first) in all.iter().enumerate() {
        for (j, second) in all.iter().enumerate() {
            assert_eq!(compare_evaluations(first, second) == Outcome::Tie, i == j);
        }
    }
}

#[test]
fn verify_names_the_winner() {
    let community = board(&[
        (Two, Clubs),
        (Seven, Diamonds),
        (Nine, Hearts),
        (Jack, Spades),
        (Four, Clubs),
    ]);
    let aces = hand((Ace, Spades), (Ace, Hearts));
    let kings = hand((King, Spades), (King, Hearts));
    let (winner, eval_a, eval_b) = verify(&aces, &kings, &community);
    assert_eq!(winner, "Hand A");
    assert_eq!(eval_a.rank, HandRank::Pair);
    assert_eq!(eval_a.high_cards, vec![Ace, Jack, Nine, Seven]);
    assert_eq!(eval_b.rank, HandRank::Pair);
    assert_eq!(eval_b.high_cards, vec![King, Jack, Nine, Seven]);
    let (winner, eval_a, eval_b) = verify(&kings, &aces, &community);
    assert_eq!(winner, "Hand B");
    assert_eq!(eval_a.high_cards, vec![King, Jack, Nine, Seven]);
    assert_eq!(eval_b.high_cards, vec![Ace, Jack, Nine, Seven]);
}

#[test]
fn verify_reports_a_tie_when_the_board_plays() {
    let community = board(&[
        (Ten, Clubs),
        (Jack, Diamonds),
        (Queen, Hearts),
        (King, Spades),
        (Ace, Clubs),
    ]);
    let first = hand((Two, Spades), (Three, Hearts));
    let second = hand((Four, Spades), (Five, Hearts));
    let (winner, eval_a, eval_b) = verify(&first, &second, &community);
    assert_eq!(winner, "Tie");
    assert_eq!(eval_a.rank, HandRank::Straight);
    assert_eq!(eval_b.rank, HandRank::Straight);
    assert_eq!(eval_a.high_cards, vec![Ace]);
    assert_eq!(eval_b.high_cards, vec![Ace]);
}

#[test]
fn suits_do_not_break_ties() {
    let community = board(&[
        (Two, Clubs),
        (Seven, Diamonds),
        (Nine, Hearts),
        (Jack, Spades),
        (Four, Clubs),
    ]);
    let first = hand((Ace, Spades), (King, Spades));
    let second = hand((Ace, Hearts), (King, Diamonds));
    let (outcome, eval_a, eval_b) = compare_hands(&first, &second, &community);
    assert_eq!(outcome, Outcome::Tie);
    assert_eq!(eval_a.high_cards, eval_b.high_cards);
    assert_eq!(eval_a.rank, HandRank::HighCard);
}

#[test]
fn a_kicker_decides_between_equal_pairs() {
    let community = board(&[
        (Ace, Clubs),
        (Seven, Diamonds),
        (Nine, Hearts),
        (Jack, Spades),
        (Four, Clubs),
    ]);
    let first = hand((Ace, Spades), (King, Spades));
    let second = hand((Ace, Hearts), (Queen, Diamonds));
    let (outcome, eval_a, eval_b) = compare_hands(&first, &second, &community);
    assert_eq!(outcome, Outcome::FirstWins);
    assert_eq!(eval_a.high_cards, vec![Ace, King, Jack, Nine]);
    assert_eq!(eval_b.high_cards, vec![Ace, Queen, Jack, Nine]);
}

#[test]
fn a_six_high_straight_beats_the_wheel() {
    let community = board(&[
        (Two, Clubs),
        (Three, Diamonds),
        (Four, Hearts),
        (Five, Spades),
        (King, Clubs),
    ]);
    let wheel = hand((Ace, Spades), (Eight, Spades));
    let six_high = hand((Six, Hearts), (Eight, Diamonds));
    let (outcome, eval_a, eval_b) = compare_hands(&wheel, &six_high, &community);
    assert_eq!(outcome, Outcome::SecondWins);
    assert_eq!(eval_a.high_cards, vec![Five]);
    assert_eq!(eval_b.high_cards, vec![Six]);
}

#[test]
fn outcomes_are_named() {
    assert_eq!(Outcome::FirstWins.to_string(), "Hand A");
    assert_eq!(Outcome::SecondWins.to_string(), "Hand B");
    assert_eq!(Outcome::Tie.to_string(), "Tie");
}
