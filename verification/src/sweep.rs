//! The sweep over all starting hands, and the table it gives.

use crate::card::Card;
use crate::deck::{lemma_standard_deck, standard_cards, standard_deck};
use crate::simulation::{is_simulation, monte_carlo_simulation, SimulationResults};
use vstd::multiset::Multiset;
use vstd::prelude::*;
use vstd::string::*;

verus! {

/// One row of the table: a starting hand, how it is described, and how it
/// fared.
#[derive(Debug, Clone)]
pub struct HandResult {
    pub hand: [Card; 2],
    pub hand_description: String,
    pub results: SimulationResults,
}

/// How a starting hand is described. A pocket pair is its rank twice and
/// `(pair)`; any other hand is its higher rank, its lower rank, and `s` if the
/// two cards share a suit, `o` if they do not.
pub open spec fn description(hand: Seq<Card>) -> Seq<char> {
    let first = hand[0];
    let second = hand[1];
    if first.rank == second.rank {
        first.rank.label() + first.rank.label() + "(pair)"@
    } else {
        let first_is_higher = first.rank.spec_value() > second.rank.spec_value();
        let high = if first_is_higher {
            first.rank
        } else {
            second.rank
        };
        let low = if first_is_higher {
            second.rank
        } else {
            first.rank
        };
        high.label() + low.label() + if first.suit == second.suit {
            "s"@
        } else {
            "o"@
        }
    }
}

/// The pairs of places `(i, j)` with `i < j < n` and `i < rows`, row by row:
/// first those with `i` = 0 and `j` rising, then those with `i` = 1, and so on.
pub open spec fn index_pairs(n: int, rows: int) -> Seq<(int, int)>
    decreases rows,
{
    if rows <= 0 || rows > n {
        Seq::empty()
    } else {
        index_pairs(n, rows - 1) + Seq::new((n - rows) as nat, |k: int| (rows - 1, rows + k))
    }
}

/// The two cards at a pair of places of the standard deck.
pub open spec fn hand_at(places: (int, int)) -> Seq<Card> {
    seq![standard_deck()[places.0], standard_deck()[places.1]]
}

/// All starting hands: every two cards of the standard deck, the one that
/// comes first in the deck first, in the order of `index_pairs`.
pub open spec fn starting_hands() -> Seq<Seq<Card>> {
    index_pairs(52, 52).map_values(|places: (int, int)| hand_at(places))
}

/// Two hands hold the same two cards, in the same or in the other order.
pub open spec fn same_two_cards(first: Seq<Card>, second: Seq<Card>) -> bool {
    ||| first[0] == second[0] && first[1] == second[1]
    ||| first[0] == second[1] && first[1] == second[0]
}

/// The first tally's share of wins is at least the second's. The shares are
/// compared as exact fractions of the trials played.
pub open spec fn win_rate_at_least(first: SimulationResults, second: SimulationResults) -> bool {
    first.wins * second.total_games >= second.wins * first.total_games
}

/// The rows stand from the highest share of wins down to the lowest.
pub open spec fn is_ranking(rows: Seq<HandResult>) -> bool {
    forall|i: int, j: int|
        0 <= i < j < rows.len() ==> win_rate_at_least(
            #[trigger] rows[i].results,
            #[trigger] rows[j].results,
        )
}

/// Every row has played at least one trial.
pub open spec fn all_played(rows: Seq<HandResult>) -> bool {
    forall|k: int| 0 <= k < rows.len() ==> (#[trigger] rows[k]).results.total_games > 0
}

/// A row as the sweep makes it for a hand: described as the hand is, with the
/// tally of `trials` trials of that hand before any community card is known.
pub open spec fn is_row(row: HandResult, trials: int) -> bool {
    &&& row.hand_description@ == description(row.hand@)
    &&& row.results.total_games == trials
    &&& row.results.consistent()
    &&& is_simulation(row.hand@, Seq::empty(), trials, row.results)
}

/// What holds of the places that `index_pairs` lists: how many there are,
/// that each is a pair `i < j < n`, and that they come in rising order, so
/// that none comes twice.
pub proof fn lemma_index_pairs(n: int, rows: int)
    requires
        0 <= rows <= n,
    ensures
        2 * index_pairs(n, rows).len() == rows * (2 * n - rows - 1),
        forall|k: int|
            0 <= k < index_pairs(n, rows).len() ==> {
                let places = #[trigger] index_pairs(n, rows)[k];
                0 <= places.0 < rows && places.0 < places.1 < n
            },
        forall|a: int, b: int|
            0 <= a < b < index_pairs(n, rows).len() ==> {
                let low = #[trigger] index_pairs(n, rows)[a];
                let high = #[trigger] index_pairs(n, rows)[b];
                low.0 < high.0 || (low.0 == high.0 && low.1 < high.1)
            },
    decreases rows,
{
    if rows == 0 {
        assert(rows * (2 * n - rows - 1) == 0) by (nonlinear_arith)
            requires
                rows == 0,
        ;
    } else {
        lemma_index_pairs(n, rows - 1);
        let earlier = index_pairs(n, rows - 1);
        let row = Seq::new((n - rows) as nat, |k: int| (rows - 1, rows + k));
        let all = index_pairs(n, rows);
        assert(all == earlier + row);
        assert(2 * all.len() == rows * (2 * n - rows - 1)) by (nonlinear_arith)
            requires
                2 * earlier.len() == (rows - 1) * (2 * n - (rows - 1) - 1),
                all.len() == earlier.len() + (n - rows),
        ;
        assert forall|k: int| 0 <= k < all.len() implies {
            let places = #[trigger] all[k];
            0 <= places.0 < rows && places.0 < places.1 < n
        } by {
            if k < earlier.len() {
                assert(all[k] == earlier[k]);
            } else {
                assert(all[k] == row[k - earlier.len()]);
            }
        }
        assert forall|a: int, b: int| 0 <= a < b < all.len() implies {
            let low = #[trigger] all[a];
            let high = #[trigger] all[b];
            low.0 < high.0 || (low.0 == high.0 && low.1 < high.1)
        } by {
            if b < earlier.len() {
                assert(all[a] == earlier[a]);
                assert(all[b] == earlier[b]);
            } else if a < earlier.len() {
                assert(all[a] == earlier[a]);
                assert(all[b] == row[b - earlier.len()]);
            } else {
                assert(all[a] == row[a - earlier.len()]);
                assert(all[b] == row[b - earlier.len()]);
            }
        }
    }
}

/// There are 1326 starting hands; each holds two different cards, and no two
/// of them hold the same two cards, in whatever order.
pub proof fn lemma_starting_hands()
    ensures
        starting_hands().len() == 1326,
        forall|k: int|
            0 <= k < 1326 ==> (#[trigger] starting_hands()[k]).len() == 2 && starting_hands()[k][0]
                != starting_hands()[k][1],
        forall|a: int, b: int|
            0 <= a < 1326 && 0 <= b < 1326 && a != b ==> !same_two_cards(
                #[trigger] starting_hands()[a],
                #[trigger] starting_hands()[b],
            ),
{
    lemma_index_pairs(52, 52);
    lemma_standard_deck();
    let places = index_pairs(52, 52);
    let deck = standard_deck();
    assert forall|k: int| 0 <= k < 1326 implies (#[trigger] starting_hands()[k]).len() == 2
        && starting_hands()[k][0] != starting_hands()[k][1] by {
        let p = places[k];
        assert(starting_hands()[k] == hand_at(p));
        assert(deck[p.0] != deck[p.1]);
    }
    assert forall|a: int, b: int| 0 <= a < 1326 && 0 <= b < 1326 && a != b implies !same_two_cards(
        #[trigger] starting_hands()[a],
        #[trigger] starting_hands()[b],
    ) by {
        let p = places[a];
        let q = places[b];
        assert(starting_hands()[a] == hand_at(p));
        assert(starting_hands()[b] == hand_at(q));
        if a < b {
            assert(p.0 < q.0 || (p.0 == q.0 && p.1 < q.1));
        } else {
            assert(q.0 < p.0 || (q.0 == p.0 && q.1 < p.1));
        }
        if same_two_cards(hand_at(p), hand_at(q)) {
            if deck[p.0] == deck[q.0] && deck[p.1] == deck[q.1] {
                assert(p.0 == q.0 && p.1 == q.1);
            } else {
                assert(p.0 == q.1 && p.1 == q.0);
            }
        }
    }
}

/// Describes a starting hand: `AA(pair)` for two Aces, `AKs` for Ace and King
/// of one suit, `AKo` for Ace and King of two suits. The higher rank stands
/// first, whichever card came first.
pub fn describe_hand(hand: &[Card; 2]) -> (text: String)
    ensures
        text@ == description(hand@),
{
    let first = hand[0];
    let second = hand[1];
    if first.rank == second.rank {
        let mut text = first.rank.to_string();
        text.append(first.rank.to_string().as_str());
        text.append("(pair)");
        text
    } else {
        let first_is_higher = first.rank.value() > second.rank.value();
        let high = if first_is_higher {
            first.rank
        } else {
            second.rank
        };
        let low = if first_is_higher {
            second.rank
        } else {
            first.rank
        };
        let mut text = high.to_string();
        text.append(low.to_string().as_str());
        if first.suit == second.suit {
            text.append("s");
        } else {
            text.append("o");
        }
        text
    }
}

impl HandResult {
    /// The row for a hand and its tally; the description is made here.
    pub fn new(hand: [Card; 2], results: SimulationResults) -> (row: HandResult)
        ensures
            row.hand == hand,
            row.results == results,
            row.hand_description@ == description(hand@),
    {
        let hand_description = describe_hand(&hand);
        HandResult { hand, hand_description, results }
    }
}

/// Lists all starting hands: every two different cards of the deck, each such
/// pair once, the cards taken in the deck's standard order.
pub fn generate_all_starting_hands() -> (hands: Vec<[Card; 2]>)
    ensures
        hands.len() == 1326,
        hands.len() == starting_hands().len(),
        forall|k: int| 0 <= k < hands.len() ==> (#[trigger] hands[k])@ == starting_hands()[k],
{
    let all_cards = standard_cards();
    let mut hands: Vec<[Card; 2]> = Vec::new();
    let ghost mut listed: Seq<(int, int)> = Seq::empty();
    let mut i: usize = 0;
    while i < all_cards.len()
        invariant
            all_cards@ == standard_deck(),
            i <= 52,
            listed == index_pairs(52, i as int),
            hands.len() == listed.len(),
            forall|k: int| 0 <= k < hands.len() ==> (#[trigger] hands[k])@ == hand_at(listed[k]),
        decreases 52 - i,
    {
        let ghost earlier = listed;
        let mut j: usize = i + 1;
        assert(listed =~= earlier + Seq::new(0, |k: int| (i as int, i + 1 + k)));
        while j < all_cards.len()
            invariant
                all_cards@ == standard_deck(),
                i < 52,
                i + 1 <= j <= 52,
                listed == earlier + Seq::new((j - i - 1) as nat, |k: int| (i as int, i + 1 + k)),
                hands.len() == listed.len(),
                forall|k: int|
                    0 <= k < hands.len() ==> (#[trigger] hands[k])@ == hand_at(listed[k]),
            decreases 52 - j,
        {
            let hand = [all_cards[i], all_cards[j]];
            assert(hand@ =~= hand_at((i as int, j as int)));
            hands.push(hand);
            proof {
                listed = listed.push((i as int, j as int));
                assert(listed =~= earlier + Seq::new(
                    (j + 1 - i - 1) as nat,
                    |k: int| (i as int, i + 1 + k),
                ));
            }
            j += 1;
        }
        i += 1;
    }
    proof {
        lemma_starting_hands();
        assert forall|k: int| 0 <= k < hands.len() implies (#[trigger] hands[k])@
            == starting_hands()[k] by {
            assert(starting_hands()[k] == hand_at(listed[k]));
        }
    }
    hands
}

/// The ranking holds the rows in another order: `order` says for each place
/// of the ranking at which place of `rows` its row stood, and names every
/// place of `rows` once. Where a row of the ranking has a share of wins no
/// lower than a row before it, it also stood after that row in `rows`: rows
/// are never moved past their equals.
pub open spec fn arranges(order: Seq<int>, rows: Seq<HandResult>, ranking: Seq<HandResult>) -> bool {
    &&& order.len() == rows.len()
    &&& ranking.len() == rows.len()
    &&& order.no_duplicates()
    &&& forall|k: int|
        0 <= k < order.len() ==> 0 <= #[trigger] order[k] < rows.len() && ranking[k]
            == rows[order[k]]
    &&& forall|k: int, l: int|
        0 <= k < l < order.len() && win_rate_at_least(ranking[l].results, ranking[k].results)
            ==> #[trigger] order[k] < #[trigger] order[l]
}

/// The ranking is the rows sorted by their share of wins, the best first,
/// with rows of equal share left in the order they stood in.
pub open spec fn is_stable_ranking(rows: Seq<HandResult>, ranking: Seq<HandResult>) -> bool {
    is_ranking(ranking) && exists|order: Seq<int>| #[trigger] arranges(order, rows, ranking)
}

/// Among tallies with trials played, a share of wins that is at least a
/// second, which is at least a third, is at least the third.
pub proof fn lemma_win_rate_transitive(
    first: SimulationResults,
    second: SimulationResults,
    third: SimulationResults,
)
    requires
        second.total_games > 0,
        win_rate_at_least(first, second),
        win_rate_at_least(second, third),
    ensures
        win_rate_at_least(first, third),
{
    let a = first.wins as int;
    let s = first.total_games as int;
    let b = second.wins as int;
    let t = second.total_games as int;
    let c = third.wins as int;
    let u = third.total_games as int;
    assert(a * u >= c * s) by (nonlinear_arith)
        requires
            t > 0,
            a >= 0,
            s >= 0,
            b >= 0,
            c >= 0,
            u >= 0,
            a * t >= b * s,
            b * u >= c * t,
    {
        assert((a * t) * u >= (b * s) * u);
        assert((b * u) * s >= (c * t) * s);
        assert((a * u) * t >= (c * s) * t);
    }
}

/// Of two tallies, one has a share of wins at least the other's.
pub proof fn lemma_win_rate_total(first: SimulationResults, second: SimulationResults)
    ensures
        win_rate_at_least(first, second) || win_rate_at_least(second, first),
{
}

/// Two lists that hold the same rows equally often have the same length and
/// the same rows, and if no row comes twice in one, none does in the other.
pub proof fn lemma_same_rows(first: Seq<HandResult>, second: Seq<HandResult>)
    requires
        first.to_multiset() == second.to_multiset(),
    ensures
        first.len() == second.len(),
        forall|row: HandResult| first.contains(row) <==> second.contains(row),
        first.no_duplicates() ==> second.no_duplicates(),
{
    broadcast use vstd::seq_lib::group_to_multiset_ensures;

    assert(first.len() == first.to_multiset().len());
    assert(second.len() == second.to_multiset().len());
    assert forall|row: HandResult| first.contains(row) <==> second.contains(row) by {
        assert(first.contains(row) <==> first.to_multiset().count(row) > 0);
        assert(second.contains(row) <==> second.to_multiset().count(row) > 0);
    }
    if first.no_duplicates() {
        first.lemma_multiset_has_no_duplicates();
        second.lemma_multiset_has_no_duplicates_conv();
    }
}

/// Whether the first tally's share of wins is at least the second's.
fn wins_at_least(first: &SimulationResults, second: &SimulationResults) -> (holds: bool)
    ensures
        holds == win_rate_at_least(*first, *second),
{
    let left = first.wins as u128;
    let right = second.wins as u128;
    let left_trials = first.total_games as u128;
    let right_trials = second.total_games as u128;
    assert(left * right_trials <= u128::MAX) by (nonlinear_arith)
        requires
            0 <= left <= 0xffff_ffff_ffff_ffff,
            0 <= right_trials <= 0xffff_ffff_ffff_ffff,
    ;
    assert(right * left_trials <= u128::MAX) by (nonlinear_arith)
        requires
            0 <= right <= 0xffff_ffff_ffff_ffff,
            0 <= left_trials <= 0xffff_ffff_ffff_ffff,
    ;
    left * right_trials >= right * left_trials
}

/// Sorts rows from the highest share of wins down to the lowest. Rows with
/// the same share keep the order they came in. The result holds the rows that
/// were given, each as often as it was given.
pub fn sort_by_win_rate(rows: Vec<HandResult>) -> (ranking: Vec<HandResult>)
    requires
        all_played(rows@),
    ensures
        is_stable_ranking(rows@, ranking@),
        ranking@.to_multiset() == rows@.to_multiset(),
        ranking.len() == rows.len(),
{
    broadcast use {vstd::seq_lib::group_to_multiset_ensures, vstd::multiset::group_multiset_axioms};

    let mut ranking: Vec<HandResult> = Vec::new();
    let mut rest = rows;
    let ghost given = rest@;
    let ghost mut order: Seq<int> = Seq::empty();
    assert(ranking@.to_multiset().add(rest@.to_multiset()) =~= given.to_multiset());
    assert(rest@ =~= given.skip(0));
    while rest.len() > 0
        invariant
            is_ranking(ranking@),
            all_played(ranking@),
            all_played(given),
            ranking@.to_multiset().add(rest@.to_multiset()) == given.to_multiset(),
            ranking.len() + rest.len() == given.len(),
            rest@ == given.skip(ranking.len() as int),
            arranges(order, given.take(ranking.len() as int), ranking@),
        decreases rest.len(),
    {
        let ghost ranked = ranking@;
        let ghost waiting = rest@;
        let ghost old_order = order;
        let ghost done = ranking.len() as int;
        let row = rest.remove(0);
        assert(row == given[done]);
        let mut place: usize = 0;
        while place < ranking.len() && wins_at_least(&ranking[place].results, &row.results)
            invariant
                place <= ranking.len(),
                ranking@ == ranked,
                forall|k: int|
                    0 <= k < place ==> win_rate_at_least(
                        (#[trigger] ranked[k]).results,
                        row.results,
                    ),
            decreases ranking.len() - place,
        {
            place += 1;
        }
        ranking.insert(place, row);
        proof {
            // Every row that stands behind the new one has a lower share.
            assert forall|j: int| place < j < ranking@.len() implies !win_rate_at_least(
                #[trigger] ranking@[j].results,
                row.results,
            ) by {
                assert(ranking@[j] == ranked[j - 1]);
                if j - 1 > place {
                    assert(win_rate_at_least(ranked[place as int].results, ranked[j - 1].results));
                    if win_rate_at_least(ranked[j - 1].results, row.results) {
                        lemma_win_rate_transitive(
                            ranked[place as int].results,
                            ranked[j - 1].results,
                            row.results,
                        );
                    }
                }
            }
            assert forall|i: int, j: int| 0 <= i < j < ranking@.len() implies win_rate_at_least(
                #[trigger] ranking@[i].results,
                #[trigger] ranking@[j].results,
            ) by {
                if j < place {
                    assert(ranking@[i] == ranked[i]);
                    assert(ranking@[j] == ranked[j]);
                } else if j == place {
                    assert(ranking@[i] == ranked[i]);
                } else if i < place {
                    assert(ranking@[i] == ranked[i]);
                    assert(ranking@[j] == ranked[j - 1]);
                } else if i == place {
                    lemma_win_rate_total(ranking@[j].results, row.results);
                } else {
                    assert(ranking@[i] == ranked[i - 1]);
                    assert(ranking@[j] == ranked[j - 1]);
                }
            }
            assert forall|k: int| 0 <= k < ranking@.len() implies (
            #[trigger] ranking@[k]).results.total_games > 0 by {
                if k < place {
                    assert(ranking@[k] == ranked[k]);
                } else if k > place {
                    assert(ranking@[k] == ranked[k - 1]);
                }
            }
            assert(ranking@ == ranked.insert(place as int, row));
            assert(rest@ == waiting.remove(0));
            vstd::seq_lib::to_multiset_insert(ranked, place as int, row);
            vstd::seq_lib::to_multiset_remove(waiting, 0);
            vstd::seq_lib::to_multiset_contains(waiting, row);
            assert(ranking@.to_multiset() =~= ranked.to_multiset().insert(row));
            assert(rest@.to_multiset() =~= waiting.to_multiset().remove(row));
            assert(waiting.contains(row));
            assert(waiting.to_multiset().count(row) > 0);
            assert(ranking@.to_multiset().add(rest@.to_multiset()) =~= ranked.to_multiset().add(
                waiting.to_multiset(),
            ));
            assert(rest@ =~= given.skip(done + 1));

            order = old_order.insert(place as int, done);
            let before = given.take(done);
            let now = given.take(done + 1);
            assert forall|k: int| 0 <= k < order.len() implies 0 <= #[trigger] order[k] < now.len()
                && ranking@[k] == now[order[k]] by {
                if k < place {
                    assert(order[k] == old_order[k]);
                    assert(ranking@[k] == ranked[k]);
                    assert(ranked[k] == before[old_order[k]]);
                } else if k > place {
                    assert(order[k] == old_order[k - 1]);
                    assert(ranking@[k] == ranked[k - 1]);
                    assert(ranked[k - 1] == before[old_order[k - 1]]);
                }
            }
            assert forall|a: int, b: int| 0 <= a < order.len() && 0 <= b < order.len() && a
                != b implies order[a] != order[b] by {
                let oa = if a < place { a } else { a - 1 };
                let ob = if b < place { b } else { b - 1 };
                if a != place && b != place {
                    assert(order[a] == old_order[oa]);
                    assert(order[b] == old_order[ob]);
                } else if a == place {
                    assert(order[b] == old_order[ob]);
                } else {
                    assert(order[a] == old_order[oa]);
                }
            }
            assert forall|k: int, l: int|
                0 <= k < l < order.len() && win_rate_at_least(
                    ranking@[l].results,
                    ranking@[k].results,
                ) implies #[trigger] order[k] < #[trigger] order[l] by {
                if l == place {
                    assert(order[k] == old_order[k]);
                } else if k == place {
                    assert(!win_rate_at_least(ranking@[l].results, row.results));
                } else {
                    let ok = if k < place { k } else { k - 1 };
                    let ol = if l < place { l } else { l - 1 };
                    assert(order[k] == old_order[ok]);
                    assert(order[l] == old_order[ol]);
                    assert(ranking@[k] == ranked[ok]);
                    assert(ranking@[l] == ranked[ol]);
                }
            }
        }
    }
    assert(rest@.to_multiset() =~= Multiset::empty());
    assert(ranking@.to_multiset() =~= given.to_multiset());
    assert(given.take(ranking.len() as int) =~= given);
    ranking
}

/// Some row of the table is for the given hand.
pub open spec fn has_row_for(table: Seq<HandResult>, hand: Seq<Card>) -> bool {
    exists|p: int| 0 <= p < table.len() && (#[trigger] table[p]).hand@ == hand
}

/// A hand is one of the starting hands.
pub open spec fn is_starting_hand(hand: Seq<Card>) -> bool {
    exists|k: int| 0 <= k < starting_hands().len() && #[trigger] starting_hands()[k] == hand
}

/// Simulates every starting hand with the same number of trials and ranks
/// the hands by their share of wins, the best first. The table has one row
/// for each of the 1326 starting hands and none for anything else.
pub fn bulk_monte_carlo_simulation(simulations_per_hand: usize) -> (table: Vec<HandResult>)
    requires
        simulations_per_hand > 0,
    ensures
        table.len() == 1326,
        is_ranking(table@),
        forall|p: int|
            0 <= p < table.len() ==> is_row(#[trigger] table[p], simulations_per_hand as int)
                && is_starting_hand(table[p].hand@),
        forall|k: int|
            0 <= k < starting_hands().len() ==> has_row_for(table@, #[trigger] starting_hands()[k]),
        forall|p: int, q: int|
            0 <= p < table.len() && 0 <= q < table.len() && p != q ==> !same_two_cards(
                #[trigger] table[p].hand@,
                #[trigger] table[q].hand@,
            ),
{
    let all_hands = generate_all_starting_hands();
    let mut rows: Vec<HandResult> = Vec::new();
    let mut index: usize = 0;
    while index < all_hands.len()
        invariant
            index <= all_hands.len(),
            all_hands.len() == starting_hands().len(),
            forall|k: int|
                0 <= k < all_hands.len() ==> (#[trigger] all_hands[k])@ == starting_hands()[k],
            rows.len() == index,
            forall|k: int|
                0 <= k < rows.len() ==> is_row(#[trigger] rows[k], simulations_per_hand as int)
                    && rows[k].hand@ == starting_hands()[k],
        decreases all_hands.len() - index,
    {
        let hand = all_hands[index];
        let results = monte_carlo_simulation(&hand, simulations_per_hand);
        rows.push(HandResult::new(hand, results));
        index += 1;
    }
    let ghost unsorted = rows@;
    let table = sort_by_win_rate(rows);
    proof {
        lemma_starting_hands();
        lemma_same_rows(unsorted, table@);
        lemma_same_rows(table@, unsorted);
        assert forall|a: int, b: int|
            0 <= a < unsorted.len() && 0 <= b < unsorted.len() && a != b implies unsorted[a]
            != unsorted[b] by {
            assert(!same_two_cards(starting_hands()[a], starting_hands()[b]));
        }
        assert forall|p: int| 0 <= p < table.len() implies is_row(
            #[trigger] table[p],
            simulations_per_hand as int,
        ) && is_starting_hand(table[p].hand@) by {
            assert(table@.contains(table[p]));
            let k = choose|k: int| 0 <= k < unsorted.len() && unsorted[k] == table[p];
            assert(starting_hands()[k] == table[p].hand@);
        }
        assert forall|k: int| 0 <= k < starting_hands().len() implies has_row_for(
            table@,
            #[trigger] starting_hands()[k],
        ) by {
            assert(unsorted.contains(unsorted[k]));
            let p = choose|p: int| 0 <= p < table@.len() && table@[p] == unsorted[k];
            assert(table@[p].hand@ == starting_hands()[k]);
        }
        assert forall|p: int, q: int|
            0 <= p < table.len() && 0 <= q < table.len() && p != q implies !same_two_cards(
            #[trigger] table[p].hand@,
            #[trigger] table[q].hand@,
        ) by {
            assert(table@.contains(table[p]));
            assert(table@.contains(table[q]));
            let a = choose|a: int| 0 <= a < unsorted.len() && unsorted[a] == table[p];
            let b = choose|b: int| 0 <= b < unsorted.len() && unsorted[b] == table[q];
            assert(table@[p] != table@[q]);
            assert(a != b);
            assert(!same_two_cards(starting_hands()[a], starting_hands()[b]));
        }
    }
    table
}

} // verus!
