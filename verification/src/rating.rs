//! The Bayesian rating model, supplied by the `skillratings` crate.
//!
//! The belief state of a competitor is a `TrueSkillRating` (a mean and an
//! uncertainty). The library never looks inside it: the pairwise update and
//! the rank-score comparison are made by `skillratings` behind the trusted
//! functions below, and everything the library proves speaks of their results
//! through the two uninterpreted names `updated_ratings` and `rank_cmp_of`.

use crate::outcome::Outcome;
use core::cmp::Ordering;
use vstd::prelude::*;

verus! {

/// Relies on `skillratings::trueskill::TrueSkillRating` being a plain value
/// (a copyable pair of mean and uncertainty): declared so belief states can
/// flow through the library, opaquely, without ever being read by it.
#[verifier::external_type_specification]
#[verifier::external_body]
pub struct ExTrueSkillRating(skillratings::trueskill::TrueSkillRating);

/// The pair of belief states that the TrueSkill pairwise update, run under
/// the default configuration, produces from two inputs and an outcome.
/// The update is a pure function of these three values alone.
pub uninterp spec fn updated_ratings(
    first: skillratings::trueskill::TrueSkillRating,
    second: skillratings::trueskill::TrueSkillRating,
    outcome: Outcome,
) -> (skillratings::trueskill::TrueSkillRating, skillratings::trueskill::TrueSkillRating);

/// How two belief states compare by conservative rank score
/// (mean minus three times the uncertainty): a pure function of the two
/// belief states alone.
pub uninterp spec fn rank_cmp_of(
    first: skillratings::trueskill::TrueSkillRating,
    second: skillratings::trueskill::TrueSkillRating,
) -> Ordering;

/// The opposite of an ordering.
pub open spec fn ord_reverse(o: Ordering) -> Ordering {
    match o {
        Ordering::Less => Ordering::Greater,
        Ordering::Equal => Ordering::Equal,
        Ordering::Greater => Ordering::Less,
    }
}

/// Relies on `skillratings::trueskill::trueskill` with
/// `TrueSkillConfig::new()`: a deterministic pairwise Bayesian update of the
/// two belief states, conditioned on the outcome.
#[verifier::external_body]
pub(crate) fn update_ratings(
    first: &skillratings::trueskill::TrueSkillRating,
    second: &skillratings::trueskill::TrueSkillRating,
    outcome: Outcome,
) -> (r: (skillratings::trueskill::TrueSkillRating, skillratings::trueskill::TrueSkillRating))
    ensures
        r == updated_ratings(*first, *second, outcome),
{
    let tagged = match outcome {
        Outcome::Win => skillratings::Outcomes::WIN,
        Outcome::Loss => skillratings::Outcomes::LOSS,
        Outcome::Draw => skillratings::Outcomes::DRAW,
    };
    skillratings::trueskill::trueskill(
        first,
        second,
        &tagged,
        &skillratings::trueskill::TrueSkillConfig::new(),
    )
}

/// Relies on `skillratings::trueskill::get_rank` and `f64::partial_cmp`:
/// compares the conservative rank scores of two belief states, with an
/// incomparable pair (an exceptional non-finite score) counted as equal.
/// Swapping the two arguments reverses the answer, since `partial_cmp` on
/// floats is antisymmetric and an incomparable pair is so both ways.
#[verifier::external_body]
pub(crate) fn rank_cmp(
    first: &skillratings::trueskill::TrueSkillRating,
    second: &skillratings::trueskill::TrueSkillRating,
) -> (r: Ordering)
    ensures
        r == rank_cmp_of(*first, *second),
        ord_reverse(r) == rank_cmp_of(*second, *first),
{
    skillratings::trueskill::get_rank(first)
        .partial_cmp(&skillratings::trueskill::get_rank(second))
        .unwrap_or(Ordering::Equal)
}

} // verus!
