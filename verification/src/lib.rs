//! Heads-up Texas Hold'em equity: a card and deck model, a best-five-of-seven
//! hand evaluator, a showdown comparator, and a Monte Carlo driver that samples
//! opponents and boards without replacement.

pub mod card;
mod chance;
pub mod deck;
pub mod evaluate;
pub mod hand;
pub mod showdown;
pub mod simulation;
pub mod sweep;

pub use card::{Card, Rank, Suit};
pub use deck::Deck;
pub use evaluate::{
    check_flush, check_four_of_a_kind, check_full_house, check_pair, check_royal_flush,
    check_straight, check_straight_flush, check_three_of_a_kind, check_two_pair, count_ranks,
    evaluate_hand, find_straight,
};
pub use hand::{HandEvaluation, HandRank};
pub use showdown::{compare_evaluations, compare_hands, verify, Outcome};
pub use simulation::{
    deal_trial, monte_carlo_simulation, monte_carlo_with_community, SimulationResults,
};
pub use sweep::{
    bulk_monte_carlo_simulation, describe_hand, generate_all_starting_hands, sort_by_win_rate,
    HandResult,
};
