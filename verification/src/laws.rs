//! Properties that span the seeding, replay and ranking components.

use crate::data::{roster_ids, MatchV, PlayerV, RosterEntryV};
use crate::replay::spec_replay;
use crate::report::{lemma_sort_len, spec_sort};
use crate::roster::{lemma_seed_count, lemma_seed_props, spec_seed};
use skillratings::trueskill::TrueSkillRating;
use vstd::prelude::*;

verus! {

/// Replaying an empty match list over a freshly seeded table leaves every
/// competitor exactly at its initialized default: the prior belief state and
/// zero tallies.
pub proof fn lemma_empty_replay_keeps_defaults(roster: Seq<RosterEntryV>, prior: TrueSkillRating)
    ensures
        spec_replay(spec_seed(roster, prior), Seq::<MatchV>::empty()) == spec_seed(roster, prior),
        forall|idx: int|
            0 <= idx < spec_seed(roster, prior).len() ==> (#[trigger] spec_seed(
                roster,
                prior,
            )[idx]).wins == 0 && spec_seed(roster, prior)[idx].losses == 0 && spec_seed(
                roster,
                prior,
            )[idx].rating == prior,
{
    lemma_seed_props(roster, prior);
}

/// Seeding, replay and ranking are pure functions of the roster, the prior
/// and the match list: re-running the whole pipeline from scratch on the
/// same inputs yields the identical final leaderboard order.
pub proof fn lemma_rerun_identical(
    roster: Seq<RosterEntryV>,
    prior: TrueSkillRating,
    ms: Seq<MatchV>,
    board1: Seq<PlayerV>,
    board2: Seq<PlayerV>,
)
    requires
        board1 == spec_sort(spec_replay(spec_seed(roster, prior), ms)),
        board2 == spec_sort(spec_replay(spec_seed(roster, prior), ms)),
    ensures
        board1 == board2,
{
}

/// However many matches are replayed, the final ranked table holds exactly
/// one row per distinct identity the roster supplied.
pub proof fn lemma_leaderboard_count(
    roster: Seq<RosterEntryV>,
    prior: TrueSkillRating,
    ms: Seq<MatchV>,
)
    ensures
        spec_sort(spec_replay(spec_seed(roster, prior), ms)).len() == roster_ids(
            roster,
        ).to_set().len(),
{
    lemma_seed_count(roster, prior);
    crate::replay::lemma_replay_effects(spec_seed(roster, prior), ms);
    lemma_sort_len(spec_replay(spec_seed(roster, prior), ms));
}

} // verus!
