use vstd::prelude::*;

use crate::model::{Event, Match};

verus! {

/// Match `i` of `ms` is a win of `team`.
pub open spec fn won_by(ms: Seq<Match>, i: int, team: usize) -> bool {
    0 <= i < ms.len() && ms[i].winning_team == team
}

/// The winners of all matches are among their two sides.
pub open spec fn winners_ok(ms: Seq<Match>) -> bool {
    forall|i: int| 0 <= i < ms.len() ==> (#[trigger] ms[i]).winner_ok()
}

/// Win `i` carries at least as much information as win `j`: it started later,
/// or at the same moment and stands no earlier in the list. The information
/// context of a match never decreases with its start time.
pub open spec fn supersedes(ms: Seq<Match>, i: int, j: int) -> bool {
    ms[j].match_start_time < ms[i].match_start_time || (ms[j].match_start_time
        == ms[i].match_start_time && j <= i)
}

/// Match `i` is the first win of `team` over opponent `o`.
pub open spec fn first_win_over(ms: Seq<Match>, team: usize, o: usize, i: int) -> bool {
    &&& won_by(ms, i, team)
    &&& ms[i].opponent(team) == o
    &&& forall|j: int| 0 <= j < i && #[trigger] won_by(ms, j, team) ==> ms[j].opponent(team) != o
}

/// The positions of the matches that `team` won, in order.
pub fn won_matches(matches: &Vec<Match>, team: usize) -> (r: Vec<usize>)
    ensures
        forall|k: int| 0 <= k < r@.len() ==> won_by(matches@, #[trigger] r@[k] as int, team),
        forall|a: int, b: int| 0 <= a < b < r@.len() ==> r@[a] < r@[b],
        forall|i: int| #[trigger] won_by(matches@, i, team) ==> r@.contains(i as usize),
{
    let mut out: Vec<usize> = Vec::new();
    let n = matches.len();
    let mut i: usize = 0;
    while i < n
        invariant
            n == matches@.len(),
            0 <= i <= n,
            forall|k: int| 0 <= k < out@.len() ==> won_by(matches@, #[trigger] out@[k] as int, team),
            forall|k: int| 0 <= k < out@.len() ==> #[trigger] out@[k] < i,
            forall|a: int, b: int| 0 <= a < b < out@.len() ==> out@[a] < out@[b],
            forall|j: int| 0 <= j < i && #[trigger] won_by(matches@, j, team) ==> out@.contains(j as usize),
        decreases n - i,
    {
        if matches[i].winning_team == team {
            let ghost before = out@;
            out.push(i);
            proof {
                assert(out@[out@.len() - 1] == i);
                assert forall|j: int| 0 <= j <= i && #[trigger] won_by(matches@, j, team) implies out@.contains(
                    j as usize,
                ) by {
                    if j < i {
                        let k = choose|k: int| 0 <= k < before.len() && before[k] == j as usize;
                        assert(out@[k] == j as usize);
                    }
                }
            }
        }
        i += 1;
    }
    out
}

/// For each distinct opponent that `team` beat, the position of the win over
/// it that carries the most information: the latest, and among wins that
/// started at the same moment the last one listed. Opponents come in the order
/// of their first defeat.
pub fn beaten_opponents(matches: &Vec<Match>, team: usize) -> (r: Vec<usize>)
    requires
        winners_ok(matches@),
    ensures
        forall|k: int| 0 <= k < r@.len() ==> won_by(matches@, #[trigger] r@[k] as int, team),
        forall|a: int, b: int|
            0 <= a < b < r@.len() ==> matches@[r@[a] as int].opponent(team) != matches@[r@[b] as int].opponent(
                team,
            ),
        forall|j: int|
            #[trigger] won_by(matches@, j, team) ==> exists|k: int|
                0 <= k < r@.len() && matches@[#[trigger] r@[k] as int].opponent(team) == matches@[j].opponent(team)
                    && supersedes(matches@, r@[k] as int, j),
        forall|a: int, b: int, i1: int, i2: int|
            0 <= a < b < r@.len() && first_win_over(matches@, team, matches@[r@[a] as int].opponent(team), i1)
                && first_win_over(matches@, team, matches@[r@[b] as int].opponent(team), i2) ==> i1 < i2,
{
    let ghost ms = matches@;
    let ghost mut firsts: Seq<int> = Seq::empty();
    let mut out: Vec<usize> = Vec::new();
    let n = matches.len();
    let mut i: usize = 0;
    while i < n
        invariant
            ms == matches@,
            n == ms.len(),
            0 <= i <= n,
            winners_ok(ms),
            forall|k: int| 0 <= k < out@.len() ==> won_by(ms, #[trigger] out@[k] as int, team),
            forall|k: int| 0 <= k < out@.len() ==> #[trigger] out@[k] < i,
            forall|a: int, b: int|
                0 <= a < b < out@.len() ==> ms[out@[a] as int].opponent(team) != ms[out@[b] as int].opponent(
                    team,
                ),
            forall|j: int|
                0 <= j < i && #[trigger] won_by(ms, j, team) ==> exists|k: int|
                    0 <= k < out@.len() && ms[#[trigger] out@[k] as int].opponent(team) == ms[j].opponent(team)
                        && supersedes(ms, out@[k] as int, j),
            firsts.len() == out@.len(),
            forall|a: int|
                0 <= a < out@.len() ==> #[trigger] firsts[a] < i && first_win_over(
                    ms,
                    team,
                    ms[out@[a] as int].opponent(team),
                    firsts[a],
                ),
            forall|a: int, b: int| 0 <= a < b < out@.len() ==> firsts[a] < firsts[b],
        decreases n - i,
    {
        let m = &matches[i];
        if m.winning_team == team {
            assert(ms[i as int].winner_ok());
            let opp = m.other_team(team);
            let mut p: usize = 0;
            while p < out.len() && matches[out[p]].other_team(team) != opp
                invariant
                    ms == matches@,
                    0 <= p <= out@.len(),
                    winners_ok(ms),
                    forall|k: int| 0 <= k < out@.len() ==> won_by(ms, #[trigger] out@[k] as int, team),
                    forall|q: int| 0 <= q < p ==> ms[#[trigger] out@[q] as int].opponent(team) != opp,
                decreases out@.len() - p,
            {
                p += 1;
            }
            let ghost before = out@;
            if p < out.len() {
                if matches[out[p]].match_start_time <= m.match_start_time {
                    out.set(p, i);
                    proof {
                        assert forall|j: int|
                            0 <= j <= i && #[trigger] won_by(ms, j, team) implies exists|k: int|
                                0 <= k < out@.len() && ms[#[trigger] out@[k] as int].opponent(team)
                                    == ms[j].opponent(team) && supersedes(ms, out@[k] as int, j) by {
                            if j == i {
                                assert(out@[p as int] == i);
                            } else {
                                let k = choose|k: int|
                                    0 <= k < before.len() && ms[#[trigger] before[k] as int].opponent(team)
                                        == ms[j].opponent(team) && supersedes(ms, before[k] as int, j);
                                if k != p {
                                    assert(out@[k] == before[k]);
                                } else {
                                    assert(out@[p as int] == i);
                                }
                            }
                        }
                    }
                } else {
                    proof {
                        assert(out@[p as int] == before[p as int]);
                    }
                }
            } else {
                out.push(i);
                proof {
                    assert forall|j: int| 0 <= j < i && #[trigger] won_by(ms, j, team) implies ms[j].opponent(team)
                        != opp by {
                        if ms[j].opponent(team) == opp {
                            let k = choose|k: int|
                                0 <= k < before.len() && ms[#[trigger] before[k] as int].opponent(team)
                                    == ms[j].opponent(team) && supersedes(ms, before[k] as int, j);
                            assert(ms[before[k] as int].opponent(team) != opp);
                        }
                    }
                    firsts = firsts.push(i as int);
                    assert forall|j: int|
                        0 <= j <= i && #[trigger] won_by(ms, j, team) implies exists|k: int|
                            0 <= k < out@.len() && ms[#[trigger] out@[k] as int].opponent(team)
                                == ms[j].opponent(team) && supersedes(ms, out@[k] as int, j) by {
                        if j == i {
                            assert(out@[out@.len() - 1] == i);
                        } else {
                            let k = choose|k: int|
                                0 <= k < before.len() && ms[#[trigger] before[k] as int].opponent(team)
                                    == ms[j].opponent(team) && supersedes(ms, before[k] as int, j);
                            assert(out@[k] == before[k]);
                        }
                    }
                }
            }
        }
        i += 1;
    }
    proof {
        assert forall|a: int, b: int, i1: int, i2: int|
            0 <= a < b < out@.len() && first_win_over(ms, team, ms[out@[a] as int].opponent(team), i1)
                && first_win_over(ms, team, ms[out@[b] as int].opponent(team), i2) implies i1 < i2 by {
            lemma_first_win_unique(ms, team, ms[out@[a] as int].opponent(team), i1, firsts[a]);
            lemma_first_win_unique(ms, team, ms[out@[b] as int].opponent(team), i2, firsts[b]);
        }
    }
    out
}

proof fn lemma_first_win_unique(ms: Seq<Match>, team: usize, o: usize, x: int, y: int)
    requires
        first_win_over(ms, team, o, x),
        first_win_over(ms, team, o, y),
    ensures
        x == y,
{
}

/// The payouts that count toward a ranking: the pairs (event position,
/// payout position) of every payout flagged `is_in_ranking`, in order.
pub fn ranked_payouts(events: &Vec<Event>) -> (r: Vec<(usize, usize)>)
    ensures
        forall|k: int|
            0 <= k < r@.len() ==> {
                let (e, d) = #[trigger] r@[k];
                &&& e < events@.len()
                &&& d < events@[e as int].prize_distribution@.len()
                &&& events@[e as int].prize_distribution@[d as int].is_in_ranking
            },
        forall|a: int, b: int| 0 <= a < b < r@.len() ==> r@[a].0 < r@[b].0 || (r@[a].0 == r@[b].0 && r@[a].1 < r@[b].1),
        forall|e: int, d: int|
            0 <= e < events@.len() && 0 <= d < events@[e].prize_distribution@.len()
                && (#[trigger] events@[e].prize_distribution@[d]).is_in_ranking ==> r@.contains((e as usize, d as usize)),
{
    let mut out: Vec<(usize, usize)> = Vec::new();
    let n = events.len();
    let mut e: usize = 0;
    while e < n
        invariant
            n == events@.len(),
            0 <= e <= n,
            forall|k: int|
                0 <= k < out@.len() ==> {
                    let (x, y) = #[trigger] out@[k];
                    &&& x < e
                    &&& y < events@[x as int].prize_distribution@.len()
                    &&& events@[x as int].prize_distribution@[y as int].is_in_ranking
                },
            forall|a: int, b: int| 0 <= a < b < out@.len() ==> out@[a].0 < out@[b].0 || (out@[a].0 == out@[b].0 && out@[a].1 < out@[b].1),
            forall|x: int, y: int|
                0 <= x < e && 0 <= y < events@[x].prize_distribution@.len()
                    && (#[trigger] events@[x].prize_distribution@[y]).is_in_ranking ==> out@.contains((x as usize, y as usize)),
        decreases n - e,
    {
        let dists = &events[e].prize_distribution;
        let nd = dists.len();
        let mut d: usize = 0;
        while d < nd
            invariant
                n == events@.len(),
                0 <= e < n,
                dists == events@[e as int].prize_distribution,
                nd == dists@.len(),
                0 <= d <= nd,
                forall|k: int|
                    0 <= k < out@.len() ==> {
                        let (x, y) = #[trigger] out@[k];
                        &&& x <= e
                        &&& y < events@[x as int].prize_distribution@.len()
                        &&& events@[x as int].prize_distribution@[y as int].is_in_ranking
                        &&& x == e ==> y < d
                    },
                forall|a: int, b: int| 0 <= a < b < out@.len() ==> out@[a].0 < out@[b].0 || (out@[a].0 == out@[b].0 && out@[a].1 < out@[b].1),
                forall|x: int, y: int|
                    0 <= x < e && 0 <= y < events@[x].prize_distribution@.len()
                        && (#[trigger] events@[x].prize_distribution@[y]).is_in_ranking ==> out@.contains((x as usize, y as usize)),
                forall|y: int|
                    0 <= y < d && (#[trigger] events@[e as int].prize_distribution@[y]).is_in_ranking ==> out@.contains((e, y as usize)),
            decreases nd - d,
        {
            if dists[d].is_in_ranking {
                let ghost before = out@;
                out.push((e, d));
                proof {
                    assert(out@[out@.len() - 1] == (e, d));
                    assert forall|x: int, y: int|
                        0 <= x < e && 0 <= y < events@[x].prize_distribution@.len()
                            && (#[trigger] events@[x].prize_distribution@[y]).is_in_ranking implies out@.contains((x as usize, y as usize)) by {
                        let k = choose|k: int| 0 <= k < before.len() && before[k] == (x as usize, y as usize);
                        assert(out@[k] == before[k]);
                    }
                    assert forall|y: int|
                        0 <= y <= d && (#[trigger] events@[e as int].prize_distribution@[y]).is_in_ranking implies out@.contains((e, y as usize)) by {
                        if y < d {
                            let k = choose|k: int| 0 <= k < before.len() && before[k] == (e, y as usize);
                            assert(out@[k] == before[k]);
                        }
                    }
                }
            }
            d += 1;
        }
        e += 1;
    }
    out
}

} // verus!
