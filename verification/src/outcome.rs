//! Match outcomes, seen from the first listed competitor's side.

use vstd::prelude::*;

verus! {

/// The result of one match, from the first competitor's perspective.
#[derive(Clone, Copy, Debug, PartialEq, Eq, Structural)]
pub enum Outcome {
    /// The first competitor won.
    Win,
    /// The first competitor lost.
    Loss,
    /// Neither competitor won.
    Draw,
}

/// Classifies a pair of scores into an outcome for the first scorer:
/// a higher first score is a win, a lower one a loss, equal scores a draw.
pub fn outcome_of_scores(first_score: i32, second_score: i32) -> (r: Outcome)
    ensures
        r == (if first_score > second_score {
            Outcome::Win
        } else if first_score < second_score {
            Outcome::Loss
        } else {
            Outcome::Draw
        }),
{
    if first_score > second_score {
        Outcome::Win
    } else if first_score < second_score {
        Outcome::Loss
    } else {
        Outcome::Draw
    }
}

} // verus!
