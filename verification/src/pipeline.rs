//! The whole batch run as one call: seed the table from the roster, replay
//! the ordered match list, rank the result.

use crate::data::{player_views, roster_views, Match, Player, RosterEntry};
use crate::replay::{replay, spec_replay};
use crate::report::{build_report, ranked_desc, row_of, spec_sort, LeaderboardRow};
use crate::roster::{init_players, lemma_seed_props, spec_seed};
use skillratings::trueskill::TrueSkillRating;
use vstd::prelude::*;

verus! {

/// Runs the full ranking batch over an already filtered match list: seeds
/// one competitor per distinct roster identity with the prior belief state,
/// replays every match in order, and returns the leaderboard in descending
/// rank-score order, places numbered 1 upward, ties keeping the competitors'
/// first-appearance order.
pub fn run_ranking(roster: &Vec<RosterEntry>, prior: TrueSkillRating, matches: &Vec<Match>) -> (rows:
    Vec<LeaderboardRow>)
    requires
        matches@.len() <= u32::MAX,
    ensures
        ({
            let board = spec_sort(
                spec_replay(
                    spec_seed(roster_views(roster@), prior),
                    crate::data::match_views(matches@),
                ),
            );
            &&& rows@.len() == board.len()
            &&& forall|k: int|
                0 <= k < rows@.len() ==> (#[trigger] rows@[k])@ == row_of(k + 1, board[k])
            &&& ranked_desc(board)
        }),
{
    let ghost rv = roster_views(roster@);
    let ghost mv = crate::data::match_views(matches@);
    let mut players = init_players(roster, prior);
    proof {
        lemma_seed_props(rv, prior);
        assert forall|idx: int|
            0 <= idx < players@.len() implies (#[trigger] players@[idx])@.wins
            + players@[idx]@.losses + matches@.len() <= u32::MAX by {
            assert(player_views(players@)[idx] == players@[idx]@);
            assert(spec_seed(rv, prior)[idx].wins == 0 && spec_seed(rv, prior)[idx].losses == 0);
        }
    }
    replay(&mut players, matches);
    proof {
        assert(player_views(players@) == spec_replay(spec_seed(rv, prior), mv));
    }
    let rows = build_report(&players);
    proof {
        let board = spec_sort(spec_replay(spec_seed(rv, prior), mv));
        assert(board == spec_sort(player_views(players@)));
        assert(rows@.len() == players@.len());
        crate::report::lemma_sort_len(player_views(players@));
    }
    rows
}

} // verus!
