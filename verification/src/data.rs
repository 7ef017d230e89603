//! The records the library works on: roster entries, competitors, matches,
//! and their mathematical views.

use crate::outcome::Outcome;
use vstd::prelude::*;

verus! {

/// One supplied competitor identity with its display name.
pub struct RosterEntry {
    pub id: String,
    pub name: String,
}

/// The view of a roster entry: both strings as character sequences.
#[verifier::ext_equal]
pub ghost struct RosterEntryV {
    pub id: Seq<char>,
    pub name: Seq<char>,
}

impl View for RosterEntry {
    type V = RosterEntryV;

    open spec fn view(&self) -> RosterEntryV {
        RosterEntryV { id: self.id@, name: self.name@ }
    }
}

/// A competitor: identity, display name, win and loss tallies, and the
/// current belief state about its skill.
pub struct Player {
    pub id: String,
    pub name: String,
    pub wins: u32,
    pub losses: u32,
    pub rating: skillratings::trueskill::TrueSkillRating,
}

/// The view of a competitor: strings as character sequences, tallies as
/// unbounded integers, the belief state as it stands.
#[verifier::ext_equal]
pub ghost struct PlayerV {
    pub id: Seq<char>,
    pub name: Seq<char>,
    pub wins: int,
    pub losses: int,
    pub rating: skillratings::trueskill::TrueSkillRating,
}

impl View for Player {
    type V = PlayerV;

    open spec fn view(&self) -> PlayerV {
        PlayerV {
            id: self.id@,
            name: self.name@,
            wins: self.wins as int,
            losses: self.losses as int,
            rating: self.rating,
        }
    }
}

/// The views of a whole competitor table.
pub open spec fn player_views(ps: Seq<Player>) -> Seq<PlayerV> {
    ps.map_values(|p: Player| p@)
}

/// The views of a whole roster.
pub open spec fn roster_views(es: Seq<RosterEntry>) -> Seq<RosterEntryV> {
    es.map_values(|e: RosterEntry| e@)
}

/// The identities of a competitor table, in table order.
pub open spec fn ids_of(ps: Seq<PlayerV>) -> Seq<Seq<char>> {
    ps.map_values(|p: PlayerV| p.id)
}

/// The identities a roster supplies, in roster order.
pub open spec fn roster_ids(es: Seq<RosterEntryV>) -> Seq<Seq<char>> {
    es.map_values(|e: RosterEntryV| e.id)
}

/// No two competitors carry the same identity.
pub open spec fn distinct_ids(ps: Seq<PlayerV>) -> bool {
    forall|i: int, j: int| 0 <= i < j < ps.len() ==> ps[i].id != ps[j].id
}

/// One recorded match: the two competitor identities and the outcome,
/// from the first identity's side.
pub struct Match {
    pub player1_id: String,
    pub player2_id: String,
    pub outcome: Outcome,
}

/// The view of a match.
#[verifier::ext_equal]
pub ghost struct MatchV {
    pub player1_id: Seq<char>,
    pub player2_id: Seq<char>,
    pub outcome: Outcome,
}

impl View for Match {
    type V = MatchV;

    open spec fn view(&self) -> MatchV {
        MatchV {
            player1_id: self.player1_id@,
            player2_id: self.player2_id@,
            outcome: self.outcome,
        }
    }
}

/// The views of a whole match list.
pub open spec fn match_views(ms: Seq<Match>) -> Seq<MatchV> {
    ms.map_values(|m: Match| m@)
}

/// The position of the first competitor with the given identity,
/// or -1 if no competitor has it.
pub open spec fn index_of_id(ps: Seq<PlayerV>, id: Seq<char>) -> int
    decreases ps.len(),
{
    if ps.len() == 0 {
        -1
    } else if ps[0].id == id {
        0
    } else {
        let rest = index_of_id(ps.drop_first(), id);
        if rest < 0 {
            -1
        } else {
            rest + 1
        }
    }
}

/// `index_of_id` lands in range and on the identity it was asked for,
/// whenever it finds anything at all.
pub proof fn lemma_index_of_id_props(ps: Seq<PlayerV>, id: Seq<char>)
    ensures
        index_of_id(ps, id) == -1 || (0 <= index_of_id(ps, id) < ps.len()
            && ps[index_of_id(ps, id)].id == id),
    decreases ps.len(),
{
    if ps.len() > 0 && ps[0].id != id {
        lemma_index_of_id_props(ps.drop_first(), id);
    }
}

/// A position that carries the identity, with no earlier such position,
/// is exactly what `index_of_id` names.
pub proof fn lemma_index_of_id_first(ps: Seq<PlayerV>, id: Seq<char>, k: int)
    requires
        0 <= k < ps.len(),
        ps[k].id == id,
        forall|j: int| 0 <= j < k ==> ps[j].id != id,
    ensures
        index_of_id(ps, id) == k,
    decreases k,
{
    if k > 0 {
        lemma_index_of_id_first(ps.drop_first(), id, k - 1);
    }
}

/// Where `index_of_id` finds nothing, no position carries the identity.
pub proof fn lemma_index_of_id_none(ps: Seq<PlayerV>, id: Seq<char>)
    requires
        index_of_id(ps, id) == -1,
    ensures
        forall|j: int| 0 <= j < ps.len() ==> ps[j].id != id,
    decreases ps.len(),
{
    if ps.len() > 0 {
        assert(ps[0].id != id);
        lemma_index_of_id_none(ps.drop_first(), id);
        assert forall|j: int| 0 <= j < ps.len() implies ps[j].id != id by {
            if j > 0 {
                assert(ps.drop_first()[j - 1] == ps[j]);
            }
        }
    }
}

/// Where no position carries the identity, `index_of_id` finds nothing.
pub proof fn lemma_index_of_id_absent(ps: Seq<PlayerV>, id: Seq<char>)
    requires
        forall|j: int| 0 <= j < ps.len() ==> ps[j].id != id,
    ensures
        index_of_id(ps, id) == -1,
    decreases ps.len(),
{
    if ps.len() > 0 {
        lemma_index_of_id_absent(ps.drop_first(), id);
    }
}

/// Finds the first competitor carrying the given identity.
pub fn find_player(players: &Vec<Player>, id: &String) -> (r: Option<usize>)
    ensures
        match r {
            Some(k) => index_of_id(player_views(players@), id@) == k,
            None => index_of_id(player_views(players@), id@) == -1,
        },
{
    let ghost pv = player_views(players@);
    let n = players.len();
    let mut k: usize = 0;
    while k < n
        invariant
            n == players.len(),
            pv == player_views(players@),
            k <= n,
            forall|j: int| 0 <= j < k ==> pv[j].id != id@,
        decreases n - k,
    {
        if players[k].id == *id {
            proof {
                lemma_index_of_id_first(pv, id@, k as int);
            }
            return Some(k);
        }
        k += 1;
    }
    proof {
        lemma_index_of_id_absent(pv, id@);
    }
    None
}

/// An exact copy of a match record.
pub fn clone_match(m: &Match) -> (r: Match)
    ensures
        r@ == m@,
{
    Match {
        player1_id: m.player1_id.clone(),
        player2_id: m.player2_id.clone(),
        outcome: m.outcome,
    }
}

/// An exact copy of a competitor record.
pub fn clone_player(p: &Player) -> (r: Player)
    ensures
        r@ == p@,
{
    Player {
        id: p.id.clone(),
        name: p.name.clone(),
        wins: p.wins,
        losses: p.losses,
        rating: p.rating,
    }
}

} // verus!
