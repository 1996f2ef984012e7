use vstd::prelude::*;

use crate::model::{Player, Team};

verus! {

/// How many players of `ps` carry the id `id`.
pub open spec fn count_id(ps: Seq<Player>, id: u16) -> nat
    decreases ps.len(),
{
    if ps.len() == 0 {
        0
    } else {
        count_id(ps.drop_last(), id) + if ps.last().player_id == id {
            1nat
        } else {
            0nat
        }
    }
}

/// The number of (core member, player) pairs with the same id.
pub open spec fn overlap(core: Seq<Player>, ps: Seq<Player>) -> nat
    decreases core.len(),
{
    if core.len() == 0 {
        0
    } else {
        overlap(core.drop_last(), ps) + count_id(ps, core.last().player_id)
    }
}

/// A roster belongs to a team when it shares at least three players with the
/// team's core.
pub open spec fn same_core(t: Team, ps: Seq<Player>) -> bool {
    overlap(t.core@, ps) >= 3
}

/// The position of the first team at or after `from` whose core the roster
/// shares.
pub open spec fn first_core_match(ts: Seq<Team>, ps: Seq<Player>, from: int) -> Option<int>
    decreases ts.len() - from,
{
    if from < 0 || from >= ts.len() {
        None
    } else if same_core(ts[from], ps) {
        Some(from)
    } else {
        first_core_match(ts, ps, from + 1)
    }
}

/// The team that a new roster starts: named `name`, with the first five
/// players of the roster as its core and no matches yet.
pub open spec fn new_team(t: Team, name: Seq<char>, ps: Seq<Player>) -> bool {
    &&& t.name@ == name
    &&& t.core@ == ps.subrange(0, 5)
    &&& t.matches_played == 0
    &&& t.matches_won == 0
}

/// Whether the roster `players` shares at least three players with `core`.
pub fn shares_core(core: &[Player; 5], players: &Vec<Player>) -> (r: bool)
    ensures
        r == (overlap(core@, players@) >= 3),
{
    let mut shared: usize = 0;
    let mut i: usize = 0;
    while i < 5
        invariant
            0 <= i <= 5,
            core@.len() == 5,
            shared == overlap(core@.subrange(0, i as int), players@),
            shared < 3,
        decreases 5 - i,
    {
        let id = core[i].player_id;
        let n = players.len();
        let mut c: usize = 0;
        let mut j: usize = 0;
        while j < n
            invariant
                n == players@.len(),
                0 <= j <= n,
                c <= j,
                c == count_id(players@.subrange(0, j as int), id),
            decreases n - j,
        {
            assert(players@.subrange(0, j + 1).drop_last() =~= players@.subrange(0, j as int));
            if players[j].player_id == id {
                c += 1;
            }
            j += 1;
        }
        assert(players@.subrange(0, n as int) =~= players@);
        assert(core@.subrange(0, i + 1).drop_last() =~= core@.subrange(0, i as int));
        if c >= 3 - shared {
            proof {
                lemma_overlap_rest(core@, players@, i as int + 1);
            }
            return true;
        }
        shared += c;
        i += 1;
    }
    assert(core@.subrange(0, 5) =~= core@);
    false
}

/// The overlap of a prefix never exceeds that of the whole core.
proof fn lemma_overlap_rest(core: Seq<Player>, ps: Seq<Player>, k: int)
    requires
        0 <= k <= core.len(),
    ensures
        overlap(core.subrange(0, k), ps) <= overlap(core, ps),
    decreases core.len() - k,
{
    if k < core.len() {
        lemma_overlap_rest(core, ps, k + 1);
        assert(core.subrange(0, k + 1).drop_last() =~= core.subrange(0, k));
    } else {
        assert(core.subrange(0, k) =~= core);
    }
}

/// The position of the team whose core the roster `team_players` shares; a
/// roster that matches no team starts a new one at the end of `teams`.
pub fn insert_team(teams: &mut Vec<Team>, team_name: &str, team_players: &Vec<Player>) -> (r: usize)
    requires
        team_players@.len() >= 5,
        old(teams)@.len() < usize::MAX,
    ensures
        first_core_match(old(teams)@, team_players@, 0) is Some ==> {
            &&& r as int == first_core_match(old(teams)@, team_players@, 0)->Some_0
            &&& final(teams)@ == old(teams)@
        },
        first_core_match(old(teams)@, team_players@, 0) is None ==> {
            &&& r == old(teams)@.len()
            &&& final(teams)@.len() == old(teams)@.len() + 1
            &&& final(teams)@.subrange(0, r as int) == old(teams)@
            &&& new_team(final(teams)@[r as int], team_name@, team_players@)
        },
{
    let n = teams.len();
    let mut idx: usize = 0;
    while idx < n
        invariant
            n == teams@.len(),
            0 <= idx <= n,
            first_core_match(teams@, team_players@, 0) == first_core_match(teams@, team_players@, idx as int),
        decreases n - idx,
    {
        if shares_core(&teams[idx].core, team_players) {
            return idx;
        }
        idx += 1;
    }
    let core = [
        team_players[0].duplicate(),
        team_players[1].duplicate(),
        team_players[2].duplicate(),
        team_players[3].duplicate(),
        team_players[4].duplicate(),
    ];
    assert(core@ =~= team_players@.subrange(0, 5));
    let ghost before = teams@;
    teams.push(Team::new(team_name.to_owned(), core));
    assert(teams@.subrange(0, n as int) =~= before);
    n
}

} // verus!
