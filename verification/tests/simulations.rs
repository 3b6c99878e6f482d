use holdem_equity::{
    deal_trial, monte_carlo_simulation, monte_carlo_with_community, Card, Outcome, Rank,
    SimulationResults, Suit,
};

fn hand(first: (Rank, Suit), second: (Rank, Suit)) -> [Card; 2] {
    [Card::new(first.0, first.1), Card::new(second.0, second.1)]
}

fn board(spec: &[(Rank, Suit)]) -> Vec<Card> {
    spec.iter().map(|&(rank, suit)| Card::new(rank, suit)).collect()
}

#[test]
fn every_trial_is_counted_once() {
    let aces = hand((Rank::Ace, Suit::Spades), (Rank::Ace, Suit::Hearts));
    for trials in [0usize, 1, 7, 250] {
        let results = monte_carlo_simulation(&aces, trials);
        assert_eq!(results.total_games, trials);
        assert_eq!(results.wins + results.losses + results.ties, trials);
    }
}

#[test]
fn every_trial_with_known_cards_is_counted_once() {
    let player = hand((Rank::Seven, Suit::Spades), (Rank::Two, Suit::Hearts));
    let flop = board(&[
        (Rank::Ace, Suit::Clubs),
        (Rank::King, Suit::Clubs),
        (Rank::Nine, Suit::Diamonds),
    ]);
    for known in 0..=3 {
        let results = monte_carlo_with_community(&player, &flop[..known], 200);
        assert_eq!(results.total_games, 200);
        assert_eq!(results.wins + results.losses + results.ties, 200);
    }
}

#[test]
fn aces_win_more_often_than_seven_two() {
    let aces = hand((Rank::Ace, Suit::Spades), (Rank::Ace, Suit::Hearts));
    let rags = hand((Rank::Seven, Suit::Spades), (Rank::Two, Suit::Hearts));
    let strong = monte_carlo_simulation(&aces, 2000);
    let weak = monte_carlo_simulation(&rags, 2000);
    assert!(strong.wins > weak.wins);
    assert!(strong.wins > 1400);
    assert!(weak.wins < 1000);
}

#[test]
fn a_royal_flush_on_a_full_board_never_loses() {
    let player = hand((Rank::Ace, Suit::Spades), (Rank::King, Suit::Spades));
    let river = board(&[
        (Rank::Queen, Suit::Spades),
        (Rank::Jack, Suit::Spades),
        (Rank::Ten, Suit::Spades),
        (Rank::Two, Suit::Hearts),
        (Rank::Three, Suit::Diamonds),
    ]);
    let results = monte_carlo_with_community(&player, &river, 300);
    assert_eq!(results, SimulationResults::new(300, 300, 0, 0));
}

#[test]
fn a_royal_flush_on_the_board_is_always_a_tie() {
    let player = hand((Rank::Two, Suit::Clubs), (Rank::Three, Suit::Clubs));
    let river = board(&[
        (Rank::Ace, Suit::Spades),
        (Rank::King, Suit::Spades),
        (Rank::Queen, Suit::Spades),
        (Rank::Jack, Suit::Spades),
        (Rank::Ten, Suit::Spades),
    ]);
    let results = monte_carlo_with_community(&player, &river, 300);
    assert_eq!(results, SimulationResults::new(300, 0, 0, 300));
}

#[test]
fn a_deal_gives_new_and_different_cards() {
    let player = hand((Rank::Ace, Suit::Spades), (Rank::Ace, Suit::Hearts));
    let flop = board(&[
        (Rank::Ace, Suit::Clubs),
        (Rank::King, Suit::Clubs),
        (Rank::Nine, Suit::Diamonds),
    ]);
    for known in 0..=3 {
        for _ in 0..100 {
            let (opponent, community) = deal_trial(&player, &flop[..known]).unwrap();
            assert_eq!(community.len(), 5);
            assert_eq!(&community[..known], &flop[..known]);
            let mut seen: Vec<Card> = player.to_vec();
            seen.extend_from_slice(&flop[..known]);
            for card in opponent.iter().chain(community[known..].iter()) {
                assert!(!seen.contains(card));
                seen.push(*card);
            }
            assert_eq!(seen.len(), 9);
        }
    }
}

#[test]
fn a_deal_on_a_full_board_only_draws_the_opponent() {
    let player = hand((Rank::Ace, Suit::Spades), (Rank::Ace, Suit::Hearts));
    let river = board(&[
        (Rank::Queen, Suit::Spades),
        (Rank::Jack, Suit::Spades),
        (Rank::Ten, Suit::Spades),
        (Rank::Two, Suit::Hearts),
        (Rank::Three, Suit::Diamonds),
    ]);
    let (opponent, community) = deal_trial(&player, &river).unwrap();
    assert_eq!(community, river);
    assert_ne!(opponent[0], opponent[1]);
    for card in opponent {
        assert!(!player.contains(&card));
        assert!(!river.contains(&card));
    }
}

#[test]
fn a_known_card_given_twice_is_passed_over() {
    let player = hand((Rank::Ace, Suit::Spades), (Rank::Ace, Suit::Spades));
    let results = monte_carlo_simulation(&player, 50);
    assert_eq!(results.total_games, 50);
    assert_eq!(results.wins + results.losses + results.ties, 50);
    let (opponent, community) = deal_trial(&player, &[]).unwrap();
    assert!(!opponent.contains(&player[0]));
    assert!(!community.contains(&player[0]));
}

#[test]
fn the_tally_counts_each_outcome_in_its_place() {
    let mut results = SimulationResults::new(0, 0, 0, 0);
    results.record(Outcome::FirstWins);
    assert_eq!(results, SimulationResults::new(1, 1, 0, 0));
    results.record(Outcome::SecondWins);
    assert_eq!(results, SimulationResults::new(2, 1, 1, 0));
    results.record(Outcome::Tie);
    assert_eq!(results, SimulationResults::new(3, 1, 1, 1));
    results.record(Outcome::FirstWins);
    assert_eq!(results, SimulationResults::new(4, 2, 1, 1));
    assert_eq!(results.total_games, 4);
    assert_eq!(results.wins, 2);
    assert_eq!(results.losses, 1);
    assert_eq!(results.ties, 1);
}
