//! The Monte Carlo driver: many random showdowns against one opponent.

use crate::card::Card;
use crate::deck::{lemma_move_keeps_wf, lemma_standard_deck, moved, Deck};
use crate::showdown::{compare_hands, showdown, Outcome};
use vstd::prelude::*;
use vstd::slice::slice_to_vec;

verus! {

/// The tally of a simulation: how many trials were played, and how many of
/// them the player won, lost and tied.
#[derive(Debug, Clone, Copy, PartialEq, Eq, Structural)]
pub struct SimulationResults {
    pub total_games: usize,
    pub wins: usize,
    pub losses: usize,
    pub ties: usize,
}

impl SimulationResults {
    /// Every trial that was played is counted once, as a win, a loss or a tie.
    pub open spec fn consistent(self) -> bool {
        self.wins + self.losses + self.ties == self.total_games
    }

    /// The tally with one more trial in it that ended as `outcome` says,
    /// seen from the first hand.
    pub open spec fn with_trial(self, outcome: Outcome) -> SimulationResults {
        match outcome {
            Outcome::FirstWins => SimulationResults {
                total_games: (self.total_games + 1) as usize,
                wins: (self.wins + 1) as usize,
                ..self
            },
            Outcome::SecondWins => SimulationResults {
                total_games: (self.total_games + 1) as usize,
                losses: (self.losses + 1) as usize,
                ..self
            },
            Outcome::Tie => SimulationResults {
                total_games: (self.total_games + 1) as usize,
                ties: (self.ties + 1) as usize,
                ..self
            },
        }
    }

    pub fn new(total_games: usize, wins: usize, losses: usize, ties: usize) -> (results:
        SimulationResults)
        ensures
            results == (SimulationResults { total_games, wins, losses, ties }),
    {
        SimulationResults { total_games, wins, losses, ties }
    }

    /// Counts one more trial.
    pub fn record(&mut self, outcome: Outcome)
        requires
            old(self).consistent(),
            old(self).total_games < usize::MAX,
        ensures
            *final(self) == old(self).with_trial(outcome),
            final(self).consistent(),
    {
        self.total_games += 1;
        match outcome {
            Outcome::FirstWins => self.wins += 1,
            Outcome::SecondWins => self.losses += 1,
            Outcome::Tie => self.ties += 1,
        }
    }
}

/// What a deal for one trial is. The opponent has two cards and the board
/// five, the board begins with the community cards that were known, and the
/// cards that were dealt (the opponent's and the rest of the board) are all
/// different and are none of the player's or the known ones.
pub open spec fn is_deal(
    player: Seq<Card>,
    known: Seq<Card>,
    opponent: Seq<Card>,
    board: Seq<Card>,
) -> bool {
    let dealt = opponent + board.skip(known.len() as int);
    &&& opponent.len() == 2
    &&& board.len() == 5
    &&& known.len() <= 5
    &&& board.take(known.len() as int) == known
    &&& dealt.no_duplicates()
    &&& forall|k: int|
        0 <= k < dealt.len() ==> !player.contains(#[trigger] dealt[k]) && !known.contains(
            dealt[k],
        )
}

/// The cards dealt in one trial: the opponent's two and the whole board.
pub struct Deal {
    pub opponent: Seq<Card>,
    pub board: Seq<Card>,
}

/// Every deal of the list is a deal for the player's hand and the known
/// community cards.
pub open spec fn is_run(player: Seq<Card>, known: Seq<Card>, deals: Seq<Deal>) -> bool {
    forall|k: int|
        0 <= k < deals.len() ==> is_deal(player, known, (#[trigger] deals[k]).opponent, deals[k].board)
}

/// How the player's hand fares in each deal of the list.
pub open spec fn outcomes_of(player: Seq<Card>, deals: Seq<Deal>) -> Seq<Outcome> {
    Seq::new(deals.len(), |k: int| showdown(player, deals[k].opponent, deals[k].board))
}

/// The tally of a list of outcomes, counted one after the other.
pub open spec fn tally_of(outcomes: Seq<Outcome>) -> SimulationResults
    decreases outcomes.len(),
{
    if outcomes.len() == 0 {
        SimulationResults { total_games: 0, wins: 0, losses: 0, ties: 0 }
    } else {
        tally_of(outcomes.drop_last()).with_trial(outcomes.last())
    }
}

/// The tally is that of `trials` deals for the player's hand and the known
/// community cards, each decided by the showdown on its board.
pub open spec fn is_simulation(
    player: Seq<Card>,
    known: Seq<Card>,
    trials: int,
    results: SimulationResults,
) -> bool {
    exists|deals: Seq<Deal>|
        {
            &&& #[trigger] is_run(player, known, deals)
            &&& deals.len() == trials
            &&& results == tally_of(outcomes_of(player, deals))
        }
}

/// A tally of outcomes counts every one of them once: as a win, a loss or a
/// tie.
pub proof fn lemma_tally_counts_every_trial(outcomes: Seq<Outcome>)
    requires
        outcomes.len() <= usize::MAX,
    ensures
        tally_of(outcomes).total_games == outcomes.len(),
        tally_of(outcomes).consistent(),
    decreases outcomes.len(),
{
    if outcomes.len() > 0 {
        lemma_tally_counts_every_trial(outcomes.drop_last());
    }
}

/// Takes known cards out of the available pile, so that no draw can give
/// them. A card that is not available is passed over.
fn set_aside(deck: &mut Deck, known: &[Card])
    requires
        old(deck)@.wf(),
    ensures
        final(deck)@.wf(),
        final(deck)@.available.len() + known.len() >= old(deck)@.available.len(),
        forall|card: Card| #[trigger]
            final(deck)@.available.contains(card) ==> old(deck)@.available.contains(card)
                && !known@.contains(card),
{
    let mut i: usize = 0;
    while i < known.len()
        invariant
            i <= known.len(),
            deck@.wf(),
            deck@.available.len() + i >= old(deck)@.available.len(),
            forall|card: Card| #[trigger]
                deck@.available.contains(card) ==> old(deck)@.available.contains(card)
                    && !known@.take(i as int).contains(card),
        decreases known.len() - i,
    {
        let ghost before = deck@;
        let taken = deck.remove_card(&known[i]);
        proof {
            if taken.is_ok() {
                let place = choose|place: int| #[trigger]
                    moved(before, deck@, place) && before.available[place] == known[i as int];
                lemma_move_keeps_wf(before, deck@, place);
            }
            assert(known@.take(i + 1) =~= known@.take(i as int).push(known[i as int]));
            let prefix = known@.take(i + 1);
            assert forall|card: Card| deck@.available.contains(card) implies !prefix.contains(
                card,
            ) by {
                if prefix.contains(card) {
                    let k = choose|k: int| 0 <= k < prefix.len() && prefix[k] == card;
                    if k < i {
                        assert(known@.take(i as int)[k] == card);
                    }
                }
            }
        }
        i += 1;
    }
    assert(known@.take(known.len() as int) =~= known@);
}

/// Draws one card that is dealt in a trial.
fn deal_card(deck: &mut Deck) -> (drawn: Option<Card>)
    requires
        old(deck)@.wf(),
    ensures
        final(deck)@.wf(),
        match drawn {
            Some(card) => {
                &&& old(deck)@.available.contains(card)
                &&& !final(deck)@.available.contains(card)
                &&& final(deck)@.available.len() == old(deck)@.available.len() - 1
                &&& forall|other: Card| #[trigger]
                    final(deck)@.available.contains(other) ==> old(deck)@.available.contains(
                        other,
                    )
            },
            None => old(deck)@.available.len() == 0 && final(deck)@ == old(deck)@,
        },
{
    let ghost before = deck@;
    let drawn = deck.draw();
    proof {
        if let Some(card) = drawn {
            let place = choose|place: int| #[trigger]
                moved(before, deck@, place) && before.available[place] == card;
            lemma_move_keeps_wf(before, deck@, place);
        }
    }
    drawn
}

/// Deals one trial from a fresh deck: the player's two cards and the known
/// community cards are taken out, two cards are drawn for the opponent, and
/// the board is filled up to five cards. With at most five known community
/// cards the deck cannot run out, so there always is a deal.
pub fn deal_trial(player_hand: &[Card; 2], known_community: &[Card]) -> (dealt: Option<
    ([Card; 2], Vec<Card>),
>)
    requires
        known_community.len() <= 5,
    ensures
        match dealt {
            Some((opponent, board)) => is_deal(
                player_hand@,
                known_community@,
                opponent@,
                board@,
            ),
            None => false,
        },
{
    let mut deck = Deck::new();
    proof {
        lemma_standard_deck();
    }
    set_aside(&mut deck, player_hand.as_slice());
    let ghost without_hand = deck@;
    set_aside(&mut deck, known_community);
    let ghost cleared = deck@;
    assert forall|card: Card| cleared.available.contains(card) implies !player_hand@.contains(
        card,
    ) && !known_community@.contains(card) by {
        assert(without_hand.available.contains(card));
    }

    let first = match deal_card(&mut deck) {
        Some(card) => card,
        None => {
            return None;
        },
    };
    let second = match deal_card(&mut deck) {
        Some(card) => card,
        None => {
            return None;
        },
    };
    let opponent = [first, second];

    let mut board = slice_to_vec(known_community);
    let ghost known = known_community@;
    let ghost before_board = seq![first, second];
    assert(before_board + board@.skip(known.len() as int) =~= before_board);
    while board.len() < 5
        invariant
            deck@.wf(),
            known == known_community@,
            known.len() <= board.len() <= 5,
            board@.take(known.len() as int) == known,
            deck@.available.len() + board.len() >= 48,
            before_board == seq![first, second],
            (before_board + board@.skip(known.len() as int)).no_duplicates(),
            forall|k: int|
                0 <= k < (before_board + board@.skip(known.len() as int)).len() ==> {
                    let card = #[trigger] (before_board + board@.skip(known.len() as int))[k];
                    &&& cleared.available.contains(card)
                    &&& !deck@.available.contains(card)
                },
            forall|card: Card| #[trigger]
                deck@.available.contains(card) ==> cleared.available.contains(card),
            forall|card: Card| #[trigger]
                cleared.available.contains(card) ==> !player_hand@.contains(card)
                    && !known.contains(card),
        decreases 5 - board.len(),
    {
        let ghost dealt_before = before_board + board@.skip(known.len() as int);
        let ghost board_before = board@;
        match deal_card(&mut deck) {
            Some(card) => {
                board.push(card);
                proof {
                    let dealt_after = before_board + board@.skip(known.len() as int);
                    assert(dealt_after =~= dealt_before.push(card));
                    assert(board@.take(known.len() as int) =~= board_before.take(
                        known.len() as int,
                    ));
                    assert forall|a: int, b: int|
                        0 <= a < dealt_after.len() && 0 <= b < dealt_after.len() && a
                            != b implies dealt_after[a] != dealt_after[b] by {
                        if a < dealt_before.len() {
                            assert(dealt_before[a] == dealt_after[a]);
                        }
                        if b < dealt_before.len() {
                            assert(dealt_before[b] == dealt_after[b]);
                        }
                    }
                    assert forall|k: int| 0 <= k < dealt_after.len() implies {
                        let other = #[trigger] dealt_after[k];
                        &&& cleared.available.contains(other)
                        &&& !deck@.available.contains(other)
                    } by {
                        if k < dealt_before.len() {
                            assert(dealt_before[k] == dealt_after[k]);
                        }
                    }
                }
            },
            None => {
                return None;
            },
        }
    }
    proof {
        let dealt = opponent@ + board@.skip(known.len() as int);
        assert(opponent@ =~= before_board);
        assert forall|k: int| 0 <= k < dealt.len() implies !player_hand@.contains(
            #[trigger] dealt[k],
        ) && !known_community@.contains(dealt[k]) by {
            assert(dealt[k] == (before_board + board@.skip(known.len() as int))[k]);
            assert(cleared.available.contains(dealt[k]));
        }
    }
    Some((opponent, board))
}

/// Plays `num_simulations` trials of the player's hand against a random
/// opponent, on boards that begin with the known community cards. Every
/// trial deals from a fresh deck of its own and is counted once, as a win, a
/// loss or a tie of the player, as the showdown on its board decides.
pub fn monte_carlo_with_community(
    player_hand: &[Card; 2],
    known_community: &[Card],
    num_simulations: usize,
) -> (results: SimulationResults)
    requires
        known_community.len() <= 5,
    ensures
        results.total_games == num_simulations,
        results.consistent(),
        is_simulation(player_hand@, known_community@, num_simulations as int, results),
{
    let mut results = SimulationResults::new(0, 0, 0, 0);
    let mut played: usize = 0;
    let ghost mut deals: Seq<Deal> = Seq::empty();
    assert(outcomes_of(player_hand@, deals) =~= Seq::empty());
    while played < num_simulations
        invariant
            played <= num_simulations,
            known_community.len() <= 5,
            results.total_games == played,
            results.consistent(),
            deals.len() == played,
            is_run(player_hand@, known_community@, deals),
            results == tally_of(outcomes_of(player_hand@, deals)),
        decreases num_simulations - played,
    {
        match deal_trial(player_hand, known_community) {
            Some((opponent, board)) => {
                let (outcome, _player_eval, _opponent_eval) = compare_hands(
                    player_hand,
                    &opponent,
                    board.as_slice(),
                );
                results.record(outcome);
                proof {
                    let before = deals;
                    deals = deals.push(Deal { opponent: opponent@, board: board@ });
                    assert(outcomes_of(player_hand@, deals) =~= outcomes_of(
                        player_hand@,
                        before,
                    ).push(outcome));
                    assert(outcomes_of(player_hand@, deals).drop_last() =~= outcomes_of(
                        player_hand@,
                        before,
                    ));
                }
            },
            None => {},
        }
        played += 1;
    }
    results
}

/// Plays `num_simulations` trials of the player's hand before any community
/// card is known.
pub fn monte_carlo_simulation(player_hand: &[Card; 2], num_simulations: usize) -> (results:
    SimulationResults)
    ensures
        results.total_games == num_simulations,
        results.consistent(),
        is_simulation(player_hand@, Seq::empty(), num_simulations as int, results),
{
    let no_cards: Vec<Card> = Vec::new();
    monte_carlo_with_community(player_hand, no_cards.as_slice(), num_simulations)
}

} // verus!
