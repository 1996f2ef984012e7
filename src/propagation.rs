use vstd::prelude::*;

use crate::error::RankError;
use crate::model::{GameMap, Match};

verus! {

/// What is wrong with match `m`, found at position `i`, in a collection of
/// `n_teams` teams: a side out of range first, then a winner that did not
/// play, then the first tied map.
pub open spec fn match_error(m: Match, i: usize, n_teams: nat) -> Option<RankError> {
    if !(m.team_1_id < n_teams && m.team_2_id < n_teams) {
        Some(RankError::TeamOutOfRange { match_index: i })
    } else if !m.winner_ok() {
        Some(RankError::WinnerNotInMatch { match_index: i })
    } else {
        match m.first_tie_from(0) {
            Some(j) => Some(RankError::TiedMap { match_index: i, map_index: j }),
            None => None,
        }
    }
}

/// The error of the first faulty match at or after position `from`.
pub open spec fn first_error_from(ms: Seq<Match>, n_teams: nat, from: int) -> Option<RankError>
    decreases ms.len() - from,
{
    if from < 0 || from >= ms.len() {
        None
    } else if match_error(ms[from], from as usize, n_teams) is Some {
        match_error(ms[from], from as usize, n_teams)
    } else {
        first_error_from(ms, n_teams, from + 1)
    }
}

/// All matches are valid for a collection of `n_teams` teams.
pub open spec fn all_valid(ms: Seq<Match>, n_teams: nat) -> bool {
    forall|i: int| 0 <= i < ms.len() ==> (#[trigger] ms[i]).valid(n_teams)
}

/// The rating event of one map: its winner (the side with the higher score)
/// and its loser.
pub open spec fn map_pair(m: Match, g: GameMap) -> (usize, usize) {
    if g.team_1_score > g.team_2_score {
        (m.team_1_id, m.team_2_id)
    } else {
        (m.team_2_id, m.team_1_id)
    }
}

/// The rating events of one match, one per map, in map order.
pub open spec fn match_pairs(m: Match) -> Seq<(usize, usize)> {
    m.maps@.map_values(|g: GameMap| map_pair(m, g))
}

/// The rating events of a sequence of matches, match by match.
pub open spec fn schedule(ms: Seq<Match>) -> Seq<(usize, usize)>
    decreases ms.len(),
{
    if ms.len() == 0 {
        Seq::empty()
    } else {
        schedule(ms.drop_last()) + match_pairs(ms.last())
    }
}

/// Checks every match against a collection of `n_teams` teams and reports the
/// first fault.
pub fn validate_matches(matches: &Vec<Match>, n_teams: usize) -> (r: Result<(), RankError>)
    ensures
        r is Ok <==> all_valid(matches@, n_teams as nat),
        r is Ok <==> first_error_from(matches@, n_teams as nat, 0) is None,
        r is Err ==> r == Err::<(), RankError>(
            first_error_from(matches@, n_teams as nat, 0)->Some_0,
        ),
{
    let n = matches.len();
    let mut i: usize = 0;
    while i < n
        invariant
            n == matches@.len(),
            0 <= i <= n,
            first_error_from(matches@, n_teams as nat, 0) == first_error_from(
                matches@,
                n_teams as nat,
                i as int,
            ),
            forall|k: int| 0 <= k < i ==> (#[trigger] matches@[k]).valid(n_teams as nat),
        decreases n - i,
    {
        let m = &matches[i];
        if !(m.team_1_id < n_teams && m.team_2_id < n_teams) {
            return Err(RankError::TeamOutOfRange { match_index: i });
        }
        if !m.is_in_game(m.winning_team) {
            return Err(RankError::WinnerNotInMatch { match_index: i });
        }
        match m.first_tied_map() {
            Some(j) => {
                return Err(RankError::TiedMap { match_index: i, map_index: j });
            },
            None => {},
        }
        i += 1;
    }
    Ok(())
}

/// The rating events of all maps, in the order in which they are applied:
/// match by match, and map by map within a match. Each is a pair of team
/// indices, the map's winner first.
pub fn map_results(matches: &Vec<Match>, n_teams: usize) -> (r: Vec<(usize, usize)>)
    requires
        all_valid(matches@, n_teams as nat),
    ensures
        r@ == schedule(matches@),
        forall|k: int| 0 <= k < r@.len() ==> (#[trigger] r@[k]).0 < n_teams && r@[k].1 < n_teams,
{
    let mut out: Vec<(usize, usize)> = Vec::new();
    let n = matches.len();
    let mut i: usize = 0;
    while i < n
        invariant
            n == matches@.len(),
            0 <= i <= n,
            all_valid(matches@, n_teams as nat),
            out@ == schedule(matches@.subrange(0, i as int)),
            forall|k: int| 0 <= k < out@.len() ==> (#[trigger] out@[k]).0 < n_teams && out@[k].1 < n_teams,
        decreases n - i,
    {
        let m = &matches[i];
        assert(m.valid(n_teams as nat));
        let ghost before = out@;
        let nm = m.maps.len();
        let mut j: usize = 0;
        while j < nm
            invariant
                nm == m.maps@.len(),
                0 <= j <= nm,
                m.valid(n_teams as nat),
                out@ == before + match_pairs(*m).subrange(0, j as int),
                forall|k: int| 0 <= k < out@.len() ==> (#[trigger] out@[k]).0 < n_teams && out@[k].1 < n_teams,
            decreases nm - j,
        {
            let g = &m.maps[j];
            let pair = if g.team_1_score > g.team_2_score {
                (m.team_1_id, m.team_2_id)
            } else {
                (m.team_2_id, m.team_1_id)
            };
            assert(pair == map_pair(*m, m.maps@[j as int]));
            out.push(pair);
            assert(match_pairs(*m).subrange(0, j + 1) =~= match_pairs(*m).subrange(0, j as int).push(pair));
            j += 1;
        }
        assert(match_pairs(*m).subrange(0, nm as int) =~= match_pairs(*m));
        assert(matches@.subrange(0, i + 1).drop_last() =~= matches@.subrange(0, i as int));
        assert(matches@.subrange(0, i + 1).last() == matches@[i as int]);
        i += 1;
    }
    assert(matches@.subrange(0, n as int) =~= matches@);
    out
}

} // verus!
