//! Seeding the competitor table from the supplied roster: one competitor
//! per distinct identity, every one starting from the same prior belief
//! state and zero tallies.

use crate::data::{
    distinct_ids, find_player, ids_of, index_of_id, lemma_index_of_id_none,
    lemma_index_of_id_props, player_views, roster_ids, roster_views, Player, PlayerV, RosterEntry,
    RosterEntryV,
};
use skillratings::trueskill::TrueSkillRating;
use vstd::prelude::*;

verus! {

/// A freshly created competitor: the entry's identity and name, the prior
/// belief state, and no wins or losses yet.
pub open spec fn fresh_player(e: RosterEntryV, prior: TrueSkillRating) -> PlayerV {
    PlayerV { id: e.id, name: e.name, wins: 0, losses: 0, rating: prior }
}

/// The table after one roster entry is taken in. An identity seen for the
/// first time appends a fresh competitor; an identity seen before replaces
/// its competitor with a fresh one (so the last supplied name wins), keeping
/// its position.
pub open spec fn seed_step(ps: Seq<PlayerV>, e: RosterEntryV, prior: TrueSkillRating) -> Seq<
    PlayerV,
> {
    let i = index_of_id(ps, e.id);
    if i >= 0 {
        ps.update(i, fresh_player(e, prior))
    } else {
        ps.push(fresh_player(e, prior))
    }
}

/// The competitor table a whole roster seeds, entries taken in order.
pub open spec fn spec_seed(roster: Seq<RosterEntryV>, prior: TrueSkillRating) -> Seq<PlayerV>
    decreases roster.len(),
{
    if roster.len() == 0 {
        Seq::<PlayerV>::empty()
    } else {
        seed_step(spec_seed(roster.drop_last(), prior), roster.last(), prior)
    }
}

/// What seeding guarantees: identities are distinct, they are exactly the
/// identities the roster supplied, in first-appearance order, and every
/// competitor starts from the prior belief state with zero tallies.
pub proof fn lemma_seed_props(roster: Seq<RosterEntryV>, prior: TrueSkillRating)
    ensures
        distinct_ids(spec_seed(roster, prior)),
        ids_of(spec_seed(roster, prior)).to_set() == roster_ids(roster).to_set(),
        forall|idx: int|
            0 <= idx < spec_seed(roster, prior).len() ==> (#[trigger] spec_seed(
                roster,
                prior,
            )[idx]).wins == 0 && spec_seed(roster, prior)[idx].losses == 0 && spec_seed(
                roster,
                prior,
            )[idx].rating == prior,
    decreases roster.len(),
{
    broadcast use vstd::seq_lib::group_seq_properties;

    if roster.len() > 0 {
        let rest = roster.drop_last();
        let e = roster.last();
        lemma_seed_props(rest, prior);
        let s = spec_seed(rest, prior);
        let i = index_of_id(s, e.id);
        lemma_index_of_id_props(s, e.id);
        assert(roster_ids(roster) =~= roster_ids(rest).push(e.id));
        assert(roster_ids(rest).push(e.id).to_set() =~= roster_ids(rest).to_set().insert(e.id));
        if i >= 0 {
            assert(ids_of(s.update(i, fresh_player(e, prior))) =~= ids_of(s));
            assert(ids_of(s)[i] == e.id);
            assert(ids_of(s).contains(e.id));
            assert(ids_of(s).to_set().contains(e.id));
            assert(roster_ids(rest).to_set().insert(e.id) =~= roster_ids(rest).to_set());
        } else {
            lemma_index_of_id_none(s, e.id);
            assert(ids_of(s.push(fresh_player(e, prior))) =~= ids_of(s).push(e.id));
            assert(ids_of(s).push(e.id).to_set() =~= ids_of(s).to_set().insert(e.id));
        }
    }
}

/// The seeded table holds exactly as many competitors as the roster holds
/// distinct identities, however often one was repeated.
pub proof fn lemma_seed_count(roster: Seq<RosterEntryV>, prior: TrueSkillRating)
    ensures
        spec_seed(roster, prior).len() == roster_ids(roster).to_set().len(),
{
    lemma_seed_props(roster, prior);
    let s = spec_seed(roster, prior);
    assert(ids_of(s).no_duplicates()) by {
        assert(forall|i: int, j: int|
            #![trigger ids_of(s)[i], ids_of(s)[j]]
            0 <= i < j < s.len() ==> ids_of(s)[i] != ids_of(s)[j]);
    }
    ids_of(s).unique_seq_to_set();
}

/// Builds the starting competitor table from the roster: each distinct
/// identity gets one competitor with the prior belief state and zero
/// tallies, positioned by its first appearance; a repeated identity only
/// refreshes the name its competitor displays.
pub fn init_players(roster: &Vec<RosterEntry>, prior: TrueSkillRating) -> (r: Vec<Player>)
    ensures
        player_views(r@) == spec_seed(roster_views(roster@), prior),
{
    let ghost rv = roster_views(roster@);
    let n = roster.len();
    let mut players: Vec<Player> = Vec::new();
    let mut k: usize = 0;
    proof {
        assert(rv.take(0) =~= Seq::<RosterEntryV>::empty());
    }
    while k < n
        invariant
            n == roster@.len(),
            rv == roster_views(roster@),
            k <= n,
            player_views(players@) == spec_seed(rv.take(k as int), prior),
        decreases n - k,
    {
        let ghost prev = player_views(players@);
        let e = &roster[k];
        let fresh = Player {
            id: e.id.clone(),
            name: e.name.clone(),
            wins: 0,
            losses: 0,
            rating: prior,
        };
        assert(fresh@ == fresh_player(rv[k as int], prior));
        match find_player(&players, &e.id) {
            Some(i) => {
                proof {
                    lemma_index_of_id_props(prev, e@.id);
                }
                let ghost f = fresh@;
                players[i] = fresh;
                proof {
                    assert(player_views(players@) =~= prev.update(i as int, f));
                }
            },
            None => {
                let ghost f = fresh@;
                players.push(fresh);
                proof {
                    assert(player_views(players@) =~= prev.push(f));
                }
            },
        }
        proof {
            assert(rv.take(k as int + 1).drop_last() =~= rv.take(k as int));
            assert(rv.take(k as int + 1).last() == rv[k as int]);
            assert(player_views(players@) == spec_seed(rv.take(k as int + 1), prior));
        }
        k += 1;
    }
    proof {
        assert(rv.take(n as int) =~= rv);
    }
    players
}

} // verus!
