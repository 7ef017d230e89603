//! The replay engine: applies the rating update across the ordered match
//! history, one match at a time, keeping win and loss tallies.

use crate::data::{
    clone_match, clone_player, find_player, index_of_id, lemma_index_of_id_props, match_views,
    player_views, Match, MatchV, Player, PlayerV,
};
use crate::outcome::Outcome;
use crate::rating::{update_ratings, updated_ratings};
use vstd::prelude::*;

verus! {

/// The two competitor records after one match between them: both belief
/// states move to what the rating update returns, the winner's win tally and
/// the loser's loss tally each grow by one, and a draw grows neither.
pub open spec fn updated_pair(a: PlayerV, b: PlayerV, o: Outcome) -> (PlayerV, PlayerV) {
    let r = updated_ratings(a.rating, b.rating, o);
    (
        PlayerV {
            id: a.id,
            name: a.name,
            wins: a.wins + if o == Outcome::Win { 1int } else { 0int },
            losses: a.losses + if o == Outcome::Loss { 1int } else { 0int },
            rating: r.0,
        },
        PlayerV {
            id: b.id,
            name: b.name,
            wins: b.wins + if o == Outcome::Loss { 1int } else { 0int },
            losses: b.losses + if o == Outcome::Win { 1int } else { 0int },
            rating: r.1,
        },
    )
}

/// The competitor table after one match is applied to it. A match whose
/// identities do not both resolve, or resolve to the same position, is a
/// no-op; otherwise the two resolved competitors are replaced by their
/// updated records and every other competitor stands as it was.
pub open spec fn replay_step(ps: Seq<PlayerV>, m: MatchV) -> Seq<PlayerV> {
    let i = index_of_id(ps, m.player1_id);
    let j = index_of_id(ps, m.player2_id);
    if i >= 0 && j >= 0 && i != j {
        let up = updated_pair(ps[i], ps[j], m.outcome);
        ps.update(i, up.0).update(j, up.1)
    } else {
        ps
    }
}

/// The competitor table after a whole match list is replayed over it,
/// strictly in order.
pub open spec fn spec_replay(ps: Seq<PlayerV>, ms: Seq<MatchV>) -> Seq<PlayerV>
    decreases ms.len(),
{
    if ms.len() == 0 {
        ps
    } else {
        spec_replay(replay_step(ps, ms[0]), ms.drop_first())
    }
}

/// Replaying one more match is one more step after the earlier ones.
pub proof fn lemma_replay_push(ps: Seq<PlayerV>, ms: Seq<MatchV>, m: MatchV)
    ensures
        spec_replay(ps, ms.push(m)) == replay_step(spec_replay(ps, ms), m),
    decreases ms.len(),
{
    if ms.len() == 0 {
        assert(ms.push(m).drop_first() =~= Seq::<MatchV>::empty());
        assert(ms.push(m)[0] == m);
        assert(spec_replay(ps, ms.push(m)) == spec_replay(
            replay_step(ps, m),
            Seq::<MatchV>::empty(),
        ));
        assert(spec_replay(ps, ms.push(m)) == replay_step(spec_replay(ps, ms), m));
    } else {
        assert(ms.push(m).drop_first() =~= ms.drop_first().push(m));
        assert(ms.push(m)[0] == ms[0]);
        lemma_replay_push(replay_step(ps, ms[0]), ms.drop_first(), m);
        assert(spec_replay(ps, ms.push(m)) == spec_replay(
            replay_step(ps, ms[0]),
            ms.drop_first().push(m),
        ));
        assert(spec_replay(ps, ms.push(m)) == replay_step(spec_replay(ps, ms), m));
    }
}

/// One step never adds or removes competitors, never renames one, changes
/// nobody but the two resolved participants, and grows each tally sum by at
/// most one.
pub proof fn lemma_step_effects(ps: Seq<PlayerV>, m: MatchV)
    ensures
        replay_step(ps, m).len() == ps.len(),
        forall|idx: int|
            0 <= idx < ps.len() ==> (#[trigger] replay_step(ps, m)[idx]).id == ps[idx].id
                && replay_step(ps, m)[idx].name == ps[idx].name,
        forall|idx: int|
            0 <= idx < ps.len() ==> (#[trigger] replay_step(ps, m)[idx]).wins
                + replay_step(ps, m)[idx].losses <= ps[idx].wins + ps[idx].losses + 1,
        forall|idx: int|
            0 <= idx < ps.len() && idx != index_of_id(ps, m.player1_id) && idx != index_of_id(
                ps,
                m.player2_id,
            ) ==> #[trigger] replay_step(ps, m)[idx] == ps[idx],
{
    lemma_index_of_id_props(ps, m.player1_id);
    lemma_index_of_id_props(ps, m.player2_id);
}

/// Replaying a match list never adds or removes competitors, never renames
/// one, and grows each competitor's tally sum by at most the number of
/// matches.
pub proof fn lemma_replay_effects(ps: Seq<PlayerV>, ms: Seq<MatchV>)
    ensures
        spec_replay(ps, ms).len() == ps.len(),
        forall|idx: int|
            0 <= idx < ps.len() ==> (#[trigger] spec_replay(ps, ms)[idx]).id == ps[idx].id
                && spec_replay(ps, ms)[idx].name == ps[idx].name,
        forall|idx: int|
            0 <= idx < ps.len() ==> (#[trigger] spec_replay(ps, ms)[idx]).wins + spec_replay(
                ps,
                ms,
            )[idx].losses <= ps[idx].wins + ps[idx].losses + ms.len(),
    decreases ms.len(),
{
    if ms.len() > 0 {
        lemma_step_effects(ps, ms[0]);
        lemma_replay_effects(replay_step(ps, ms[0]), ms.drop_first());
    }
}

/// Replaying an empty match list changes nothing at all.
pub proof fn lemma_replay_empty(ps: Seq<PlayerV>)
    ensures
        spec_replay(ps, Seq::<MatchV>::empty()) == ps,
{
}

/// A match with an identity that resolves to no competitor is skipped
/// whole: no belief state and no tally anywhere changes on its account.
pub proof fn lemma_step_unknown_skipped(ps: Seq<PlayerV>, m: MatchV)
    requires
        index_of_id(ps, m.player1_id) == -1 || index_of_id(ps, m.player2_id) == -1,
    ensures
        replay_step(ps, m) == ps,
{
}

/// Replay is a pure function of the starting table and the match list: two
/// replays of the same matches over the same fresh table end the same.
pub proof fn lemma_replay_deterministic(
    ps: Seq<PlayerV>,
    ms: Seq<MatchV>,
    r1: Seq<PlayerV>,
    r2: Seq<PlayerV>,
)
    requires
        r1 == spec_replay(ps, ms),
        r2 == spec_replay(ps, ms),
    ensures
        r1 == r2,
{
}

/// Replaying a concatenation is replaying the first part, then the second
/// over its result: the history may be consumed in consecutive slices.
pub proof fn lemma_replay_append(ps: Seq<PlayerV>, a: Seq<MatchV>, b: Seq<MatchV>)
    ensures
        spec_replay(ps, a + b) == spec_replay(spec_replay(ps, a), b),
    decreases a.len(),
{
    if a.len() == 0 {
        assert(a + b =~= b);
    } else {
        assert((a + b).drop_first() =~= a.drop_first() + b);
        assert((a + b)[0] == a[0]);
        lemma_replay_append(replay_step(ps, a[0]), a.drop_first(), b);
    }
}

/// Whether a match references the sentinel identity that stands for "no
/// competitor": such a match must never reach the replay.
pub open spec fn references_sentinel(m: MatchV, sentinel: Seq<char>) -> bool {
    m.player1_id == sentinel || m.player2_id == sentinel
}

/// The match list with every match that references the sentinel identity
/// dropped, the rest kept in their order.
pub open spec fn spec_filter_matches(ms: Seq<MatchV>, sentinel: Seq<char>) -> Seq<MatchV>
    decreases ms.len(),
{
    if ms.len() == 0 {
        Seq::<MatchV>::empty()
    } else {
        let rest = spec_filter_matches(ms.drop_last(), sentinel);
        if references_sentinel(ms.last(), sentinel) {
            rest
        } else {
            rest.push(ms.last())
        }
    }
}

/// Drops, before replay, every match that references the sentinel identity
/// on either side; all other matches are kept, in their given order.
pub fn filter_matches(ms: &Vec<Match>, sentinel: &String) -> (r: Vec<Match>)
    ensures
        match_views(r@) == spec_filter_matches(match_views(ms@), sentinel@),
{
    let ghost mv = match_views(ms@);
    let n = ms.len();
    let mut out: Vec<Match> = Vec::new();
    let mut k: usize = 0;
    proof {
        assert(mv.take(0) =~= Seq::<MatchV>::empty());
    }
    while k < n
        invariant
            n == ms@.len(),
            mv == match_views(ms@),
            k <= n,
            match_views(out@) == spec_filter_matches(mv.take(k as int), sentinel@),
        decreases n - k,
    {
        let ghost prev = match_views(out@);
        let m = &ms[k];
        if !(m.player1_id == *sentinel || m.player2_id == *sentinel) {
            let c = clone_match(m);
            let ghost cv = c@;
            out.push(c);
            proof {
                assert(match_views(out@) =~= prev.push(cv));
            }
        }
        proof {
            assert(mv.take(k as int + 1).drop_last() =~= mv.take(k as int));
            assert(mv.take(k as int + 1).last() == mv[k as int]);
        }
        k += 1;
    }
    proof {
        assert(mv.take(n as int) =~= mv);
    }
    out
}

/// Applies one match to the two competitors it paired: both belief states
/// move to what the rating update returns, and the tallies follow the
/// outcome, a draw counting for neither.
pub fn simulate_match(player1: &mut Player, player2: &mut Player, outcome: Outcome)
    requires
        outcome == Outcome::Win ==> old(player1).wins < u32::MAX && old(player2).losses
            < u32::MAX,
        outcome == Outcome::Loss ==> old(player1).losses < u32::MAX && old(player2).wins
            < u32::MAX,
    ensures
        (final(player1)@, final(player2)@) == updated_pair(old(player1)@, old(player2)@, outcome),
{
    let (r1, r2) = update_ratings(&player1.rating, &player2.rating, outcome);
    player1.rating = r1;
    player2.rating = r2;
    match outcome {
        Outcome::Win => {
            player1.wins = player1.wins + 1;
            player2.losses = player2.losses + 1;
        },
        Outcome::Loss => {
            player1.losses = player1.losses + 1;
            player2.wins = player2.wins + 1;
        },
        Outcome::Draw => {},
    }
}

/// Replays the whole match list, in order, over the competitor table.
/// The table ends exactly as the replay model says; in particular a match
/// whose identities do not both resolve to two distinct competitors is a
/// no-op, and competitors a match does not name are untouched by its step.
pub fn replay(players: &mut Vec<Player>, matches: &Vec<Match>)
    requires
        forall|idx: int|
            0 <= idx < old(players)@.len() ==> (#[trigger] old(players)@[idx])@.wins
                + old(players)@[idx]@.losses + matches@.len() <= u32::MAX,
    ensures
        player_views(final(players)@) == spec_replay(
            player_views(old(players)@),
            match_views(matches@),
        ),
{
    let ghost init_pv = player_views(old(players)@);
    let ghost mv = match_views(matches@);
    let n = matches.len();
    let mut k: usize = 0;
    proof {
        assert(mv.take(0) =~= Seq::<MatchV>::empty());
    }
    while k < n
        invariant
            n == matches@.len(),
            mv == match_views(matches@),
            init_pv == player_views(old(players)@),
            forall|idx: int|
                0 <= idx < init_pv.len() ==> init_pv[idx].wins + init_pv[idx].losses + n
                    <= u32::MAX,
            k <= n,
            player_views(players@) == spec_replay(init_pv, mv.take(k as int)),
        decreases n - k,
    {
        let ghost prev = player_views(players@);
        proof {
            lemma_replay_effects(init_pv, mv.take(k as int));
        }
        let m = &matches[k];
        let oi = find_player(players, &m.player1_id);
        let oj = find_player(players, &m.player2_id);
        if let (Some(i), Some(j)) = (oi, oj) {
            if i != j {
                proof {
                    lemma_index_of_id_props(prev, m@.player1_id);
                    lemma_index_of_id_props(prev, m@.player2_id);
                }
                let mut p1 = clone_player(&players[i]);
                let mut p2 = clone_player(&players[j]);
                simulate_match(&mut p1, &mut p2, m.outcome);
                players[i] = p1;
                players[j] = p2;
                proof {
                    let up = updated_pair(prev[i as int], prev[j as int], m@.outcome);
                    assert(player_views(players@) =~= prev.update(i as int, up.0).update(
                        j as int,
                        up.1,
                    ));
                    assert(player_views(players@) == replay_step(prev, m@));
                }
            } else {
                proof {
                    assert(player_views(players@) == replay_step(prev, m@));
                }
            }
        } else {
            proof {
                assert(player_views(players@) == replay_step(prev, m@));
            }
        }
        proof {
            assert(mv.take(k as int + 1) =~= mv.take(k as int).push(mv[k as int]));
            lemma_replay_push(init_pv, mv.take(k as int), mv[k as int]);
            assert(m@ == mv[k as int]);
        }
        k += 1;
    }
    proof {
        assert(mv.take(n as int) =~= mv);
    }
}

} // verus!
