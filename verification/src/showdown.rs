//! Comparing two evaluated hands at showdown.

use crate::card::{Card, Rank};
use crate::evaluate::evaluate_hand;
use crate::hand::{best_hand, Evaluation, HandEvaluation};
use vstd::prelude::*;
use vstd::string::*;

verus! {

/// How a showdown between a first and a second hand ends.
#[derive(Debug, Clone, Copy, PartialEq, Eq, Hash, Structural)]
pub enum Outcome {
    FirstWins,
    SecondWins,
    Tie,
}

impl Outcome {
    /// The same outcome seen from the other hand.
    pub open spec fn reversed(self) -> Outcome {
        match self {
            Outcome::FirstWins => Outcome::SecondWins,
            Outcome::SecondWins => Outcome::FirstWins,
            Outcome::Tie => Outcome::Tie,
        }
    }

    /// The words an outcome is reported in.
    pub open spec fn label(self) -> Seq<char> {
        match self {
            Outcome::FirstWins => "Hand A"@,
            Outcome::SecondWins => "Hand B"@,
            Outcome::Tie => "Tie"@,
        }
    }

    /// The outcome as text: `Hand A`, `Hand B` or `Tie`.
    pub fn to_string(&self) -> (text: String)
        ensures
            text@ == self.label(),
    {
        match self {
            Outcome::FirstWins => String::from_str("Hand A"),
            Outcome::SecondWins => String::from_str("Hand B"),
            Outcome::Tie => String::from_str("Tie"),
        }
    }
}

/// Compares two lists of ranks from the front: the first place where they
/// differ decides, by rank value; if one list runs out first, the longer one
/// is ahead; lists of the same length and ranks tie.
pub open spec fn compare_ranks(first: Seq<Rank>, second: Seq<Rank>) -> Outcome
    decreases first.len(),
{
    if first.len() == 0 && second.len() == 0 {
        Outcome::Tie
    } else if first.len() == 0 {
        Outcome::SecondWins
    } else if second.len() == 0 {
        Outcome::FirstWins
    } else if first[0].spec_value() > second[0].spec_value() {
        Outcome::FirstWins
    } else if first[0].spec_value() < second[0].spec_value() {
        Outcome::SecondWins
    } else {
        compare_ranks(first.drop_first(), second.drop_first())
    }
}

/// Compares two evaluations: the stronger category wins; within a category
/// the tie-break ranks decide.
pub open spec fn compare(first: Evaluation, second: Evaluation) -> Outcome {
    if first.category.spec_strength() > second.category.spec_strength() {
        Outcome::FirstWins
    } else if first.category.spec_strength() < second.category.spec_strength() {
        Outcome::SecondWins
    } else {
        compare_ranks(first.tie_break, second.tie_break)
    }
}

/// The outcome of a showdown between two pairs of hole cards on one board.
pub open spec fn showdown(hand_a: Seq<Card>, hand_b: Seq<Card>, community: Seq<Card>) -> Outcome {
    compare(best_hand(hand_a + community), best_hand(hand_b + community))
}

/// Comparing from some place on is comparing the rest of the lists.
proof fn lemma_compare_ranks_from(first: Seq<Rank>, second: Seq<Rank>, k: int)
    requires
        0 <= k <= first.len(),
        k <= second.len(),
        forall|j: int| 0 <= j < k ==> first[j] == second[j],
    ensures
        compare_ranks(first, second) == compare_ranks(first.skip(k), second.skip(k)),
    decreases k,
{
    if k == 0 {
        assert(first.skip(0) =~= first);
        assert(second.skip(0) =~= second);
    } else {
        lemma_compare_ranks_from(first, second, k - 1);
        let a = first.skip(k - 1);
        let b = second.skip(k - 1);
        assert(a[0] == first[k - 1]);
        assert(b[0] == second[k - 1]);
        assert(a.drop_first() =~= first.skip(k));
        assert(b.drop_first() =~= second.skip(k));
    }
}

/// Compares two evaluated hands: the higher category wins; in the same
/// category the tie-break ranks are compared one by one and the first
/// difference decides; equal categories with equal tie-break ranks tie.
pub fn compare_evaluations(first: &HandEvaluation, second: &HandEvaluation) -> (outcome: Outcome)
    ensures
        outcome == compare(first@, second@),
{
    let strength_a = first.rank.strength();
    let strength_b = second.rank.strength();
    if strength_a > strength_b {
        return Outcome::FirstWins;
    }
    if strength_a < strength_b {
        return Outcome::SecondWins;
    }
    let mut i: usize = 0;
    while i < first.high_cards.len() && i < second.high_cards.len()
        invariant
            first.rank.spec_strength() == second.rank.spec_strength(),
            i <= first.high_cards.len(),
            i <= second.high_cards.len(),
            forall|j: int| 0 <= j < i ==> first.high_cards@[j] == second.high_cards@[j],
        decreases first.high_cards.len() - i,
    {
        let a = first.high_cards[i].value();
        let b = second.high_cards[i].value();
        if a != b {
            proof {
                lemma_compare_ranks_from(first.high_cards@, second.high_cards@, i as int);
                assert(first.high_cards@.skip(i as int)[0] == first.high_cards@[i as int]);
                assert(second.high_cards@.skip(i as int)[0] == second.high_cards@[i as int]);
            }
            return if a > b {
                Outcome::FirstWins
            } else {
                Outcome::SecondWins
            };
        }
        i += 1;
    }
    proof {
        lemma_compare_ranks_from(first.high_cards@, second.high_cards@, i as int);
    }
    if i < first.high_cards.len() {
        Outcome::FirstWins
    } else if i < second.high_cards.len() {
        Outcome::SecondWins
    } else {
        Outcome::Tie
    }
}

/// Evaluates two hands on the same community cards and compares them. The
/// result holds the outcome, then the evaluation of the first and that of the
/// second hand.
pub fn compare_hands(hand_a: &[Card; 2], hand_b: &[Card; 2], community_cards: &[Card]) -> (result:
    (Outcome, HandEvaluation, HandEvaluation))
    ensures
        result.0 == showdown(hand_a@, hand_b@, community_cards@),
        result.1@ == best_hand(hand_a@ + community_cards@),
        result.2@ == best_hand(hand_b@ + community_cards@),
{
    let eval_a = evaluate_hand(hand_a, community_cards);
    let eval_b = evaluate_hand(hand_b, community_cards);
    let outcome = compare_evaluations(&eval_a, &eval_b);
    (outcome, eval_a, eval_b)
}

/// Evaluates two hands on the same community cards and says which is ahead.
/// The first part of the result is `Hand A`, `Hand B` or `Tie`; the other two
/// are the evaluations of the first and of the second hand.
pub fn verify(hand_a: &[Card; 2], hand_b: &[Card; 2], community_cards: &[Card]) -> (result: (
    String,
    HandEvaluation,
    HandEvaluation,
))
    ensures
        result.0@ == showdown(hand_a@, hand_b@, community_cards@).label(),
        result.1@ == best_hand(hand_a@ + community_cards@),
        result.2@ == best_hand(hand_b@ + community_cards@),
{
    let (outcome, eval_a, eval_b) = compare_hands(hand_a, hand_b, community_cards);
    (outcome.to_string(), eval_a, eval_b)
}

/// Swapping the two lists of ranks reverses the outcome.
pub proof fn lemma_compare_ranks_reversed(first: Seq<Rank>, second: Seq<Rank>)
    ensures
        compare_ranks(second, first) == compare_ranks(first, second).reversed(),
    decreases first.len(),
{
    if first.len() > 0 && second.len() > 0 && first[0].spec_value() == second[0].spec_value() {
        lemma_compare_ranks_reversed(first.drop_first(), second.drop_first());
    }
}

/// Two lists of ranks tie exactly when they are the same list.
pub proof fn lemma_compare_ranks_tie(first: Seq<Rank>, second: Seq<Rank>)
    ensures
        compare_ranks(first, second) == Outcome::Tie <==> first == second,
    decreases first.len(),
{
    if first.len() > 0 && second.len() > 0 {
        if first[0].spec_value() == second[0].spec_value() {
            lemma_compare_ranks_tie(first.drop_first(), second.drop_first());
            assert(first[0] == second[0]);
            if first.drop_first() == second.drop_first() {
                assert(first =~= seq![first[0]] + first.drop_first());
                assert(second =~= seq![second[0]] + second.drop_first());
            }
        } else {
            assert(first[0] != second[0]);
        }
    } else if first.len() == 0 && second.len() == 0 {
        assert(first =~= second);
    }
}

/// If the first list is ahead of or level with the second, and the second
/// ahead of or level with the third, the first is ahead of or level with the
/// third; it is level only if both steps are.
pub proof fn lemma_compare_ranks_transitive(first: Seq<Rank>, second: Seq<Rank>, third: Seq<Rank>)
    requires
        compare_ranks(first, second) != Outcome::SecondWins,
        compare_ranks(second, third) != Outcome::SecondWins,
    ensures
        compare_ranks(first, third) != Outcome::SecondWins,
        compare_ranks(first, third) == Outcome::Tie ==> compare_ranks(first, second) == Outcome::Tie
            && compare_ranks(second, third) == Outcome::Tie,
    decreases first.len(),
{
    if first.len() > 0 && second.len() > 0 && third.len() > 0 {
        if first[0].spec_value() == second[0].spec_value() && second[0].spec_value()
            == third[0].spec_value() {
            lemma_compare_ranks_transitive(
                first.drop_first(),
                second.drop_first(),
                third.drop_first(),
            );
        }
    }
}

/// Swapping the two hands reverses the outcome: if the first beats the
/// second, the second loses to the first, and a tie stays a tie.
pub proof fn lemma_compare_antisymmetric(first: Evaluation, second: Evaluation)
    ensures
        compare(second, first) == compare(first, second).reversed(),
{
    lemma_compare_ranks_reversed(first.tie_break, second.tie_break);
}

/// Equal evaluations tie, and only equal evaluations tie.
pub proof fn lemma_compare_tie(first: Evaluation, second: Evaluation)
    ensures
        compare(first, first) == Outcome::Tie,
        compare(first, second) == Outcome::Tie <==> first == second,
{
    lemma_compare_ranks_tie(first.tie_break, first.tie_break);
    lemma_compare_ranks_tie(first.tie_break, second.tie_break);
}

/// The comparison is transitive: a hand that is at least as good as a second,
/// which is at least as good as a third, is at least as good as the third, and
/// it beats the third as soon as one of the two steps is a win.
pub proof fn lemma_compare_transitive(first: Evaluation, second: Evaluation, third: Evaluation)
    requires
        compare(first, second) != Outcome::SecondWins,
        compare(second, third) != Outcome::SecondWins,
    ensures
        compare(first, third) != Outcome::SecondWins,
        compare(first, second) == Outcome::FirstWins || compare(second, third)
            == Outcome::FirstWins ==> compare(first, third) == Outcome::FirstWins,
{
    let a = first.category.spec_strength();
    let b = second.category.spec_strength();
    let c = third.category.spec_strength();
    if a == b && b == c {
        lemma_compare_ranks_transitive(first.tie_break, second.tie_break, third.tie_break);
    }
}

} // verus!
