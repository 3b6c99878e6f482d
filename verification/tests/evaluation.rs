use holdem_equity::{
    check_flush, check_four_of_a_kind, check_full_house, check_pair, check_royal_flush,
    check_straight, check_straight_flush, check_three_of_a_kind, check_two_pair, count_ranks,
    evaluate_hand, find_straight, Card, HandEvaluation, HandRank, Rank, Suit,
};

fn card(rank: Rank, suit: Suit) -> Card {
    Card::new(rank, suit)
}

fn cards(spec: &[(Rank, Suit)]) -> Vec<Card> {
    spec.iter().map(|&(rank, suit)| Card::new(rank, suit)).collect()
}

fn evaluate(hole: [(Rank, Suit); 2], community: &[(Rank, Suit)]) -> (HandRank, Vec<Rank>) {
    let hole_cards = [card(hole[0].0, hole[0].1), card(hole[1].0, hole[1].1)];
    let evaluation = evaluate_hand(&hole_cards, &cards(community));
    (evaluation.rank, evaluation.high_cards)
}

fn found(result: Option<HandEvaluation>) -> Option<(HandRank, Vec<Rank>)> {
    result.map(|evaluation| (evaluation.rank, evaluation.high_cards))
}

use Rank::{Ace, Eight, Five, Four, Jack, King, Nine, Queen, Seven, Six, Ten, Three, Two};
use Suit::{Clubs, Diamonds, Hearts, Spades};

#[test]
fn four_aces_with_kings_beside_them() {
    let result = evaluate(
        [(Ace, Spades), (Ace, Hearts)],
        &[(Ace, Diamonds), (Ace, Clubs), (King, Spades), (King, Hearts), (Two, Diamonds)],
    );
    assert_eq!(result, (HandRank::FourOfAKind, vec![Ace, King]));
}

#[test]
fn a_straight_flush_in_spades_up_to_the_six() {
    let result = evaluate(
        [(Two, Spades), (Seven, Diamonds)],
        &[(Three, Spades), (Four, Spades), (Five, Spades), (Six, Spades), (King, Diamonds)],
    );
    assert_eq!(result, (HandRank::StraightFlush, vec![Six]));
}

#[test]
fn the_wheel_is_a_straight_with_the_five_high() {
    let result = evaluate(
        [(Ace, Spades), (Two, Spades)],
        &[(Three, Spades), (Four, Spades), (Five, Hearts), (Nine, Diamonds), (King, Clubs)],
    );
    assert_eq!(result, (HandRank::Straight, vec![Five]));
}

#[test]
fn a_royal_flush() {
    let result = evaluate(
        [(Ace, Hearts), (King, Hearts)],
        &[(Queen, Hearts), (Jack, Hearts), (Ten, Hearts), (Two, Clubs), (Two, Spades)],
    );
    assert_eq!(result, (HandRank::RoyalFlush, vec![Ace]));
}

#[test]
fn royal_ranks_in_mixed_suits_are_only_a_straight() {
    let result = evaluate(
        [(Ace, Hearts), (King, Spades)],
        &[(Queen, Hearts), (Jack, Hearts), (Ten, Hearts), (Two, Clubs), (Three, Spades)],
    );
    assert_eq!(result, (HandRank::Straight, vec![Ace]));
}

#[test]
fn a_wheel_in_one_suit_is_a_straight_flush_with_the_five_high() {
    let result = evaluate(
        [(Ace, Clubs), (Two, Clubs)],
        &[(Three, Clubs), (Four, Clubs), (Five, Clubs), (King, Hearts), (King, Spades)],
    );
    assert_eq!(result, (HandRank::StraightFlush, vec![Five]));
}

#[test]
fn the_higher_of_two_straight_flushes_in_a_suit_counts() {
    let result = evaluate(
        [(Three, Diamonds), (Four, Diamonds)],
        &[(Five, Diamonds), (Six, Diamonds), (Seven, Diamonds), (Eight, Diamonds), (Two, Diamonds)],
    );
    assert_eq!(result, (HandRank::StraightFlush, vec![Eight]));
}

#[test]
fn a_full_house_takes_the_higher_trips_and_the_best_pair() {
    let result = evaluate(
        [(King, Spades), (King, Hearts)],
        &[(King, Diamonds), (Ace, Clubs), (Ace, Spades), (Ace, Hearts), (Two, Diamonds)],
    );
    assert_eq!(result, (HandRank::FullHouse, vec![Ace, King]));
    let result = evaluate(
        [(Seven, Spades), (Seven, Hearts)],
        &[(Seven, Diamonds), (King, Clubs), (King, Spades), (Two, Hearts), (Two, Diamonds)],
    );
    assert_eq!(result, (HandRank::FullHouse, vec![Seven, King]));
    let result = evaluate(
        [(Queen, Spades), (Queen, Hearts)],
        &[(Three, Diamonds), (Three, Clubs), (Three, Spades), (Nine, Hearts), (Two, Diamonds)],
    );
    assert_eq!(result, (HandRank::FullHouse, vec![Three, Queen]));
}

#[test]
fn a_flush_lists_its_five_best_ranks() {
    let result = evaluate(
        [(Two, Hearts), (Nine, Hearts)],
        &[(King, Hearts), (Four, Hearts), (Jack, Hearts), (Six, Hearts), (Ace, Clubs)],
    );
    assert_eq!(result, (HandRank::Flush, vec![King, Jack, Nine, Six, Four]));
    let result = evaluate(
        [(Two, Hearts), (Nine, Hearts)],
        &[(King, Hearts), (Four, Hearts), (Jack, Hearts), (Six, Hearts), (Ace, Hearts)],
    );
    assert_eq!(result, (HandRank::Flush, vec![Ace, King, Jack, Nine, Six]));
}

#[test]
fn a_flush_beats_a_straight_in_the_same_cards() {
    let result = evaluate(
        [(Five, Clubs), (Six, Clubs)],
        &[(Seven, Clubs), (Eight, Hearts), (Nine, Diamonds), (Two, Clubs), (King, Clubs)],
    );
    assert_eq!(result, (HandRank::Flush, vec![King, Seven, Six, Five, Two]));
}

#[test]
fn a_straight_takes_its_highest_run() {
    let result = evaluate(
        [(Five, Clubs), (Six, Hearts)],
        &[(Seven, Clubs), (Eight, Hearts), (Nine, Diamonds), (Ten, Clubs), (Two, Spades)],
    );
    assert_eq!(result, (HandRank::Straight, vec![Ten]));
    let result = evaluate(
        [(Nine, Clubs), (Eight, Hearts)],
        &[(Seven, Clubs), (Six, Hearts), (Five, Diamonds), (King, Clubs), (King, Spades)],
    );
    assert_eq!(result, (HandRank::Straight, vec![Nine]));
}

#[test]
fn a_run_over_the_ace_is_no_straight() {
    let result = evaluate(
        [(Queen, Clubs), (King, Hearts)],
        &[(Ace, Clubs), (Two, Hearts), (Three, Diamonds), (Seven, Clubs), (Nine, Spades)],
    );
    assert_eq!(result, (HandRank::HighCard, vec![Ace, King, Queen, Nine, Seven]));
}

#[test]
fn three_of_a_kind_with_two_kickers() {
    let result = evaluate(
        [(Eight, Clubs), (Eight, Hearts)],
        &[(Eight, Spades), (Two, Hearts), (Jack, Diamonds), (Four, Clubs), (Ace, Spades)],
    );
    assert_eq!(result, (HandRank::ThreeOfAKind, vec![Eight, Ace, Jack]));
}

#[test]
fn two_pair_with_the_best_kicker() {
    let result = evaluate(
        [(Eight, Clubs), (Eight, Hearts)],
        &[(Four, Spades), (Two, Hearts), (Jack, Diamonds), (Four, Clubs), (Ace, Spades)],
    );
    assert_eq!(result, (HandRank::TwoPair, vec![Eight, Four, Ace]));
}

#[test]
fn three_pairs_leave_the_third_as_a_kicker() {
    let result = evaluate(
        [(Ace, Clubs), (Ace, Hearts)],
        &[(King, Spades), (King, Hearts), (Queen, Diamonds), (Queen, Clubs), (Two, Spades)],
    );
    assert_eq!(result, (HandRank::TwoPair, vec![Ace, King, Queen]));
    let result = evaluate(
        [(Three, Clubs), (Three, Hearts)],
        &[(King, Spades), (King, Hearts), (Queen, Diamonds), (Queen, Clubs), (Ace, Spades)],
    );
    assert_eq!(result, (HandRank::TwoPair, vec![King, Queen, Ace]));
}

#[test]
fn a_pair_with_three_kickers() {
    let result = evaluate(
        [(Nine, Clubs), (Nine, Hearts)],
        &[(King, Spades), (Two, Hearts), (Queen, Diamonds), (Four, Clubs), (Ace, Spades)],
    );
    assert_eq!(result, (HandRank::Pair, vec![Nine, Ace, King, Queen]));
}

#[test]
fn a_high_card_hand_lists_its_five_best_ranks() {
    let result = evaluate(
        [(Nine, Clubs), (Three, Hearts)],
        &[(King, Spades), (Two, Hearts), (Queen, Diamonds), (Four, Clubs), (Ace, Spades)],
    );
    assert_eq!(result, (HandRank::HighCard, vec![Ace, King, Queen, Nine, Four]));
}

#[test]
fn hole_cards_alone_are_evaluated() {
    assert_eq!(evaluate([(Ace, Spades), (Ace, Hearts)], &[]), (HandRank::Pair, vec![Ace]));
    assert_eq!(
        evaluate([(Seven, Spades), (Ace, Hearts)], &[]),
        (HandRank::HighCard, vec![Ace, Seven])
    );
}

#[test]
fn the_flop_alone_is_evaluated() {
    let result =
        evaluate([(Ace, Spades), (Ace, Hearts)], &[(Ace, Clubs), (King, Clubs), (Two, Hearts)]);
    assert_eq!(result, (HandRank::ThreeOfAKind, vec![Ace, King, Two]));
    let result =
        evaluate([(Seven, Spades), (Seven, Hearts)], &[(Seven, Clubs), (Seven, Diamonds), (Two, Hearts)]);
    assert_eq!(result, (HandRank::FourOfAKind, vec![Seven, Two]));
}

#[test]
fn four_of_a_kind_without_another_card_has_the_two_as_kicker() {
    let four = cards(&[(Nine, Spades), (Nine, Hearts), (Nine, Diamonds), (Nine, Clubs)]);
    assert_eq!(
        found(check_four_of_a_kind(&four)),
        Some((HandRank::FourOfAKind, vec![Nine, Two]))
    );
}

#[test]
fn the_order_of_the_cards_does_not_matter() {
    let all = cards(&[
        (Eight, Clubs),
        (Four, Spades),
        (Jack, Diamonds),
        (Eight, Hearts),
        (Ace, Spades),
        (Four, Clubs),
        (Two, Hearts),
    ]);
    let expected = (HandRank::TwoPair, vec![Eight, Four, Ace]);
    for shift in 0..7 {
        for step in [1usize, 2, 3, 4, 5, 6] {
            let order: Vec<Card> = (0..7).map(|k| all[(shift + k * step) % 7]).collect();
            let evaluation = evaluate_hand(&[order[0], order[1]], &order[2..]);
            assert_eq!((evaluation.rank, evaluation.high_cards), expected);
        }
    }
}

#[test]
fn rank_counts() {
    let hand = cards(&[
        (Ace, Spades),
        (Ace, Hearts),
        (Two, Clubs),
        (King, Clubs),
        (Two, Hearts),
        (Ace, Clubs),
    ]);
    let counts = count_ranks(&hand);
    assert_eq!(counts.len(), 15);
    assert_eq!(counts[14], 3);
    assert_eq!(counts[13], 1);
    assert_eq!(counts[2], 2);
    assert_eq!(counts.iter().sum::<usize>(), 6);
    assert_eq!(count_ranks(&[]), vec![0usize; 15]);
}

#[test]
fn straights_among_bare_ranks() {
    assert_eq!(find_straight(&[Nine, Eight, Seven, Six, Five]), Some(Nine));
    assert_eq!(find_straight(&[Five, Nine, Six, Eight, Seven]), Some(Nine));
    assert_eq!(find_straight(&[Ace, King, Queen, Jack, Ten]), Some(Ace));
    assert_eq!(find_straight(&[Ace, Two, Three, Four, Five]), Some(Five));
    assert_eq!(find_straight(&[Ace, Two, Three, Four, Five, Six]), Some(Six));
    assert_eq!(find_straight(&[Two, Three, Four, Five, Six]), Some(Six));
    assert_eq!(find_straight(&[Nine, Nine, Eight, Eight, Seven, Six, Five]), Some(Nine));
    assert_eq!(find_straight(&[Nine, Eight, Seven, Six]), None);
    assert_eq!(find_straight(&[King, Ace, Two, Three, Four]), None);
    assert_eq!(find_straight(&[Ten, Eight, Seven, Six, Five, Three, Two]), None);
    assert_eq!(find_straight(&[]), None);
}

#[test]
fn each_check_finds_its_own_category_only() {
    let quads = cards(&[
        (Ace, Spades),
        (Ace, Hearts),
        (Ace, Diamonds),
        (Ace, Clubs),
        (King, Spades),
        (King, Hearts),
        (Two, Diamonds),
    ]);
    assert_eq!(found(check_royal_flush(&quads)), None);
    assert_eq!(found(check_straight_flush(&quads)), None);
    assert_eq!(found(check_four_of_a_kind(&quads)), Some((HandRank::FourOfAKind, vec![Ace, King])));
    assert_eq!(found(check_full_house(&quads)), Some((HandRank::FullHouse, vec![Ace, King])));
    assert_eq!(found(check_flush(&quads)), None);
    assert_eq!(found(check_straight(&quads)), None);
    assert_eq!(
        found(check_three_of_a_kind(&quads)),
        Some((HandRank::ThreeOfAKind, vec![Ace, King, King]))
    );
    assert_eq!(found(check_two_pair(&quads)), Some((HandRank::TwoPair, vec![Ace, King, Two])));
    assert_eq!(found(check_pair(&quads)), Some((HandRank::Pair, vec![Ace, King, King, Two])));
}

#[test]
fn checks_on_a_hand_without_pairs() {
    let hand = cards(&[
        (Ace, Hearts),
        (King, Hearts),
        (Queen, Hearts),
        (Jack, Hearts),
        (Ten, Hearts),
        (Three, Clubs),
        (Two, Spades),
    ]);
    assert_eq!(found(check_royal_flush(&hand)), Some((HandRank::RoyalFlush, vec![Ace])));
    assert_eq!(found(check_straight_flush(&hand)), Some((HandRank::StraightFlush, vec![Ace])));
    assert_eq!(found(check_four_of_a_kind(&hand)), None);
    assert_eq!(found(check_full_house(&hand)), None);
    assert_eq!(
        found(check_flush(&hand)),
        Some((HandRank::Flush, vec![Ace, King, Queen, Jack, Ten]))
    );
    assert_eq!(found(check_straight(&hand)), Some((HandRank::Straight, vec![Ace])));
    assert_eq!(found(check_three_of_a_kind(&hand)), None);
    assert_eq!(found(check_two_pair(&hand)), None);
    assert_eq!(found(check_pair(&hand)), None);
}

#[test]
fn checks_on_no_cards_find_nothing() {
    assert_eq!(found(check_royal_flush(&[])), None);
    assert_eq!(found(check_straight_flush(&[])), None);
    assert_eq!(found(check_four_of_a_kind(&[])), None);
    assert_eq!(found(check_full_house(&[])), None);
    assert_eq!(found(check_flush(&[])), None);
    assert_eq!(found(check_straight(&[])), None);
    assert_eq!(found(check_three_of_a_kind(&[])), None);
    assert_eq!(found(check_two_pair(&[])), None);
    assert_eq!(found(check_pair(&[])), None);
}

#[test]
fn a_full_house_needs_two_different_ranks() {
    let trips = cards(&[(Six, Spades), (Six, Hearts), (Six, Diamonds), (King, Clubs)]);
    assert_eq!(found(check_full_house(&trips)), None);
    let quads = cards(&[(Six, Spades), (Six, Hearts), (Six, Diamonds), (Six, Clubs)]);
    assert_eq!(found(check_full_house(&quads)), None);
    assert_eq!(found(check_two_pair(&quads)), None);
}

#[test]
fn four_of_a_suit_is_no_flush() {
    let hand = cards(&[
        (Ace, Hearts),
        (King, Hearts),
        (Queen, Hearts),
        (Jack, Hearts),
        (Ten, Clubs),
        (Three, Clubs),
        (Two, Spades),
    ]);
    assert_eq!(found(check_flush(&hand)), None);
    assert_eq!(found(check_royal_flush(&hand)), None);
    assert_eq!(found(check_straight_flush(&hand)), None);
}

#[test]
fn categories_are_ordered_and_named() {
    let all = [
        HandRank::HighCard,
        HandRank::Pair,
        HandRank::TwoPair,
        HandRank::ThreeOfAKind,
        HandRank::Straight,
        HandRank::Flush,
        HandRank::FullHouse,
        HandRank::FourOfAKind,
        HandRank::StraightFlush,
        HandRank::RoyalFlush,
    ];
    let names = [
        "High Card",
        "Pair",
        "Two Pair",
        "Three of a Kind",
        "Straight",
        "Flush",
        "Full House",
        "Four of a Kind",
        "Straight Flush",
        "Royal Flush",
    ];
    for (k, category) in all.iter().enumerate() {
        assert_eq!(category.strength() as usize, k + 1);
        assert_eq!(category.to_string(), names[k]);
        if k > 0 {
            assert!(all[k - 1] < *category);
        }
    }
}

#[test]
fn an_evaluation_keeps_what_it_is_given() {
    let evaluation = HandEvaluation::new(HandRank::Pair, vec![Nine, Ace, King, Queen]);
    assert_eq!(evaluation.rank, HandRank::Pair);
    assert_eq!(evaluation.high_cards, vec![Nine, Ace, King, Queen]);
}
