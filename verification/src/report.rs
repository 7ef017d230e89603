//! Ranking and report building: orders the final competitor table by
//! conservative rank score, descending, and assembles the 1-indexed
//! leaderboard.
//!
//! The order is the one the trusted comparator `rank_cmp` answers. Nothing
//! guarantees that comparator is transitive (an exceptional non-finite rank
//! score compares equal to everything), so the sort is pinned down as the
//! stable insertion sort over it: each competitor is inserted behind every
//! earlier-inserted competitor that does not rank strictly below it. Ties by
//! rank score therefore keep the relative order of the input table; that
//! tie-break is intentional and part of the contract.

use crate::data::{clone_player, player_views, Player, PlayerV};
use crate::rating::{ord_reverse, rank_cmp, rank_cmp_of};
use core::cmp::Ordering;
use vstd::multiset::Multiset;
use vstd::prelude::*;
use vstd::seq_lib::group_to_multiset_ensures;

verus! {

/// Where a competitor lands when inserted, from the right, into an already
/// ranked table: it passes every competitor ranking strictly below it and
/// stops behind the first one that does not.
pub open spec fn spec_insert(s: Seq<PlayerV>, x: PlayerV) -> Seq<PlayerV>
    decreases s.len(),
{
    if s.len() == 0 {
        seq![x]
    } else if rank_cmp_of(s.last().rating, x.rating) == Ordering::Less {
        spec_insert(s.drop_last(), x).push(s.last())
    } else {
        s.push(x)
    }
}

/// The stable insertion sort of a competitor table, descending by rank
/// score: competitors are inserted in input order, so equal-ranking ones
/// keep their relative input order.
pub open spec fn spec_sort(s: Seq<PlayerV>) -> Seq<PlayerV>
    decreases s.len(),
{
    if s.len() == 0 {
        Seq::<PlayerV>::empty()
    } else {
        spec_insert(spec_sort(s.drop_last()), s.last())
    }
}

/// No competitor ranks strictly below its immediate successor: the table is
/// in descending rank-score order, stated pairwise over neighbours.
pub open spec fn ranked_desc(s: Seq<PlayerV>) -> bool {
    forall|i: int|
        #![trigger s[i].rating, s[i + 1].rating]
        0 <= i && i + 1 < s.len() ==> rank_cmp_of(s[i].rating, s[i + 1].rating) != Ordering::Less
}

/// Inserting grows the table by exactly one.
pub proof fn lemma_insert_len(s: Seq<PlayerV>, x: PlayerV)
    ensures
        spec_insert(s, x).len() == s.len() + 1,
    decreases s.len(),
{
    if s.len() > 0 && rank_cmp_of(s.last().rating, x.rating) == Ordering::Less {
        lemma_insert_len(s.drop_last(), x);
    }
}

/// Sorting keeps the number of competitors.
pub proof fn lemma_sort_len(s: Seq<PlayerV>)
    ensures
        spec_sort(s).len() == s.len(),
    decreases s.len(),
{
    if s.len() > 0 {
        lemma_sort_len(s.drop_last());
        lemma_insert_len(spec_sort(s.drop_last()), s.last());
    }
}

/// Inserting adds the one competitor to the table's contents.
pub proof fn lemma_insert_multiset(s: Seq<PlayerV>, x: PlayerV)
    ensures
        spec_insert(s, x).to_multiset() == s.to_multiset().insert(x),
    decreases s.len(),
{
    broadcast use group_to_multiset_ensures;

    if s.len() == 0 {
        assert(seq![x] =~= Seq::<PlayerV>::empty().push(x));
        assert(Seq::<PlayerV>::empty().push(x).to_multiset() =~= Multiset::<
            PlayerV,
        >::empty().insert(x));
        assert(s.to_multiset() =~= Multiset::<PlayerV>::empty());
    } else if rank_cmp_of(s.last().rating, x.rating) == Ordering::Less {
        lemma_insert_multiset(s.drop_last(), x);
        assert(s =~= s.drop_last().push(s.last()));
        assert(s.to_multiset() == s.drop_last().to_multiset().insert(s.last()));
        assert(s.drop_last().to_multiset().insert(x).insert(s.last()) =~= s.drop_last()
            .to_multiset()
            .insert(s.last())
            .insert(x));
    }
}

/// The sorted table is a permutation of the input table: the same
/// competitor records, each the same number of times.
pub proof fn lemma_sort_multiset(s: Seq<PlayerV>)
    ensures
        spec_sort(s).to_multiset() == s.to_multiset(),
    decreases s.len(),
{
    broadcast use group_to_multiset_ensures;

    if s.len() > 0 {
        lemma_sort_multiset(s.drop_last());
        lemma_insert_multiset(spec_sort(s.drop_last()), s.last());
        assert(s =~= s.drop_last().push(s.last()));
        assert(s.to_multiset() == s.drop_last().to_multiset().insert(s.last()));
    }
}

/// When every competitor from position `p` on ranks strictly below `x` and
/// the one just before `p` (if any) does not, the insertion lands exactly at
/// `p`.
pub proof fn lemma_insert_at(s: Seq<PlayerV>, x: PlayerV, p: int)
    requires
        0 <= p <= s.len(),
        forall|q: int|
            p <= q < s.len() ==> rank_cmp_of(#[trigger] s[q].rating, x.rating) == Ordering::Less,
        p > 0 ==> rank_cmp_of(s[p - 1].rating, x.rating) != Ordering::Less,
    ensures
        spec_insert(s, x) == s.insert(p, x),
    decreases s.len(),
{
    if s.len() == 0 {
        assert(spec_insert(s, x) =~= s.insert(0, x));
    } else if p == s.len() {
        assert(spec_insert(s, x) == s.push(x));
        assert(s.push(x) =~= s.insert(p, x));
    } else {
        assert(rank_cmp_of(s[s.len() - 1].rating, x.rating) == Ordering::Less);
        lemma_insert_at(s.drop_last(), x, p);
        assert(spec_insert(s, x) == s.drop_last().insert(p, x).push(s.last()));
        s.drop_last().insert_ensures(p, x);
        s.insert_ensures(p, x);
        assert(s.drop_last().insert(p, x).push(s.last()) =~= s.insert(p, x));
    }
}

/// Inserting `x` at such a position keeps the table in descending order,
/// provided `x` also ranks strictly above everything it passed.
#[verifier::rlimit(60)]
pub proof fn lemma_insert_ranked(s: Seq<PlayerV>, x: PlayerV, p: int)
    requires
        ranked_desc(s),
        0 <= p <= s.len(),
        forall|q: int|
            p <= q < s.len() ==> rank_cmp_of(x.rating, #[trigger] s[q].rating)
                == Ordering::Greater,
        p > 0 ==> rank_cmp_of(s[p - 1].rating, x.rating) != Ordering::Less,
    ensures
        ranked_desc(s.insert(p, x)),
{
    s.insert_ensures(p, x);
    let t = s.insert(p, x);
    assert forall|i: int|
        #![trigger t[i].rating, t[i + 1].rating]
        0 <= i && i + 1 < t.len() implies rank_cmp_of(t[i].rating, t[i + 1].rating)
        != Ordering::Less by {
        if i + 1 < p {
            assert(t[i] == s[i]);
            assert(t[i + 1] == s[i + 1]);
            assert(rank_cmp_of(s[i].rating, s[i + 1].rating) != Ordering::Less);
        } else if i + 1 == p {
            assert(t[i] == s[i]);
            assert(t[i + 1] == x);
        } else if i == p {
            assert(t[i] == x);
            assert(t[i + 1] == s[p]);
            assert(rank_cmp_of(x.rating, s[p].rating) == Ordering::Greater);
        } else {
            assert(t[i] == s[i - 1]);
            assert(t[i + 1] == s[i]);
            assert(rank_cmp_of(s[i - 1].rating, s[i].rating) != Ordering::Less);
        }
    }
}

/// The documented tie-break, in its purest form: when no comparison
/// separates any two competitors, ranking them changes nothing, so
/// competitors with equal rank scores stand in the order the input gave
/// them.
pub proof fn lemma_sort_ties_keep_order(s: Seq<PlayerV>)
    requires
        forall|i: int, j: int|
            #![trigger s[i].rating, s[j].rating]
            0 <= i < s.len() && 0 <= j < s.len() ==> rank_cmp_of(s[i].rating, s[j].rating)
                == Ordering::Equal,
    ensures
        spec_sort(s) == s,
    decreases s.len(),
{
    if s.len() > 0 {
        let rest = s.drop_last();
        lemma_sort_ties_keep_order(rest);
        if rest.len() == 0 {
            assert(spec_sort(s) =~= s);
        } else {
            assert(rank_cmp_of(rest.last().rating, s.last().rating) == Ordering::Equal);
            assert(spec_sort(s) == rest.push(s.last()));
            assert(rest.push(s.last()) =~= s);
        }
    }
}

/// Sorts the competitor table by conservative rank score, descending, with
/// the stable tie-break: competitors no comparison separates stay in the
/// relative order the input gave them. The input itself is left untouched.
#[verifier::rlimit(60)]
pub fn sort_players(players: &Vec<Player>) -> (r: Vec<Player>)
    ensures
        player_views(r@) == spec_sort(player_views(players@)),
        ranked_desc(player_views(r@)),
{
    let ghost pv = player_views(players@);
    let n = players.len();
    let mut out: Vec<Player> = Vec::new();
    let mut k: usize = 0;
    proof {
        assert(pv.take(0) =~= Seq::<PlayerV>::empty());
    }
    while k < n
        invariant
            n == players@.len(),
            pv == player_views(players@),
            k <= n,
            player_views(out@) == spec_sort(pv.take(k as int)),
            ranked_desc(player_views(out@)),
        decreases n - k,
    {
        let x = clone_player(&players[k]);
        let ghost s = player_views(out@);
        let mut p: usize = out.len();
        proof {
            lemma_sort_len(pv.take(k as int));
        }
        loop
            invariant
                p <= out@.len(),
                s == player_views(out@),
                x@ == pv[k as int],
                out@.len() == k,
                k < n,
                forall|q: int|
                    p <= q < s.len() ==> rank_cmp_of(#[trigger] s[q].rating, x@.rating)
                        == Ordering::Less,
                forall|q: int|
                    p <= q < s.len() ==> rank_cmp_of(x@.rating, #[trigger] s[q].rating)
                        == Ordering::Greater,
            ensures
                p <= s.len(),
                forall|q: int|
                    p <= q < s.len() ==> rank_cmp_of(#[trigger] s[q].rating, x@.rating)
                        == Ordering::Less,
                forall|q: int|
                    p <= q < s.len() ==> rank_cmp_of(x@.rating, #[trigger] s[q].rating)
                        == Ordering::Greater,
                p > 0 ==> rank_cmp_of(s[p - 1].rating, x@.rating) != Ordering::Less,
            decreases p,
        {
            if p == 0 {
                break ;
            }
            let c = rank_cmp(&out[p - 1].rating, &x.rating);
            proof {
                assert(s[p - 1].rating == out@[p - 1].rating);
            }
            match c {
                Ordering::Less => {
                    p = p - 1;
                },
                _ => {
                    break ;
                },
            }
        }
        proof {
            lemma_insert_at(s, x@, p as int);
            lemma_insert_ranked(s, x@, p as int);
        }
        let ghost before = out@;
        out.insert(p, x);
        proof {
            before.insert_ensures(p as int, x);
            player_views(before).insert_ensures(p as int, x@);
            assert(player_views(out@) =~= player_views(before).insert(p as int, x@));
            assert(pv.take(k as int + 1).drop_last() =~= pv.take(k as int));
            assert(pv.take(k as int + 1).last() == pv[k as int]);
            assert(player_views(out@) == spec_sort(pv.take(k as int + 1)));
        }
        k += 1;
    }
    proof {
        assert(pv.take(n as int) =~= pv);
    }
    out
}

/// One leaderboard line: the 1-indexed place, the competitor's name, its
/// final belief state (from which the displayed rank score is derived), its
/// tallies and its identity.
pub struct LeaderboardRow {
    pub place: usize,
    pub name: String,
    pub rating: skillratings::trueskill::TrueSkillRating,
    pub wins: u32,
    pub losses: u32,
    pub id: String,
}

/// The view of a leaderboard line.
#[verifier::ext_equal]
pub ghost struct LeaderboardRowV {
    pub place: int,
    pub name: Seq<char>,
    pub rating: skillratings::trueskill::TrueSkillRating,
    pub wins: int,
    pub losses: int,
    pub id: Seq<char>,
}

impl View for LeaderboardRow {
    type V = LeaderboardRowV;

    open spec fn view(&self) -> LeaderboardRowV {
        LeaderboardRowV {
            place: self.place as int,
            name: self.name@,
            rating: self.rating,
            wins: self.wins as int,
            losses: self.losses as int,
            id: self.id@,
        }
    }
}

/// The leaderboard line a competitor yields at a given place.
pub open spec fn row_of(place: int, p: PlayerV) -> LeaderboardRowV {
    LeaderboardRowV {
        place: place,
        name: p.name,
        rating: p.rating,
        wins: p.wins,
        losses: p.losses,
        id: p.id,
    }
}

/// Builds the leaderboard: one row per competitor, in descending rank-score
/// order with the stable tie-break, places numbered 1 upward without gaps or
/// repeats. The competitor table itself is read, never changed.
pub fn build_report(players: &Vec<Player>) -> (rows: Vec<LeaderboardRow>)
    ensures
        rows@.len() == players@.len(),
        forall|k: int|
            0 <= k < rows@.len() ==> (#[trigger] rows@[k])@ == row_of(
                k + 1,
                spec_sort(player_views(players@))[k],
            ),
        ranked_desc(spec_sort(player_views(players@))),
{
    let sorted = sort_players(players);
    proof {
        lemma_sort_len(player_views(players@));
    }
    let ghost sv = spec_sort(player_views(players@));
    let n = sorted.len();
    let mut rows: Vec<LeaderboardRow> = Vec::new();
    let mut k: usize = 0;
    while k < n
        invariant
            n == sorted@.len(),
            n == players@.len(),
            sv == spec_sort(player_views(players@)),
            sv.len() == n,
            player_views(sorted@) == sv,
            k <= n,
            rows@.len() == k,
            forall|i: int| 0 <= i < k ==> (#[trigger] rows@[i])@ == row_of(i + 1, sv[i]),
        decreases n - k,
    {
        let p = &sorted[k];
        rows.push(
            LeaderboardRow {
                place: k + 1,
                name: p.name.clone(),
                rating: p.rating,
                wins: p.wins,
                losses: p.losses,
                id: p.id.clone(),
            },
        );
        k += 1;
    }
    rows
}

} // verus!
