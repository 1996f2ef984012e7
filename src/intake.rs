use vstd::prelude::*;

use crate::context::RankingContext;
use crate::model::{Event, Match, Player, PrizeDist, Team};
use crate::selection::best_indices;
use crate::roster::{first_core_match, insert_team, overlap, count_id, same_core};
use crate::text::{has_infix, is_showmatch, lower_of, showmatch_word};

verus! {

/// A match counts when both rosters have exactly five players and it started
/// inside the time window.
pub open spec fn accepted(ctx: RankingContext, m: Match) -> bool {
    &&& m.team_1_players@.len() == 5
    &&& m.team_2_players@.len() == 5
    &&& ctx.time_window_start <= m.match_start_time <= ctx.time_window_end
}

/// Whether a match counts toward this run at all.
pub fn accepts_match(ctx: &RankingContext, m: &Match) -> (r: bool)
    ensures
        r == accepted(*ctx, *m),
{
    m.team_1_players.len() == 5 && m.team_2_players.len() == 5 && ctx.time_window_start
        <= m.match_start_time && m.match_start_time <= ctx.time_window_end
}

/// Adds `ev` unless an event with its id is already listed; says whether it
/// was added.
pub fn add_event(events: &mut Vec<Event>, ev: Event) -> (r: bool)
    ensures
        r == !(exists|i: int| 0 <= i < old(events)@.len() && (#[trigger] old(events)@[i]).id == ev.id),
        r ==> final(events)@ == old(events)@.push(ev),
        !r ==> final(events)@ == old(events)@,
{
    let n = events.len();
    let mut i: usize = 0;
    while i < n
        invariant
            n == events@.len(),
            0 <= i <= n,
            forall|k: int| 0 <= k < i ==> (#[trigger] events@[k]).id != ev.id,
        decreases n - i,
    {
        if events[i].id == ev.id {
            return false;
        }
        i += 1;
    }
    events.push(ev);
    true
}

/// The position of the first event at or after `from` with id `id`.
pub open spec fn event_position(evs: Seq<Event>, id: usize, from: int) -> Option<int>
    decreases evs.len() - from,
{
    if from < 0 || from >= evs.len() {
        None
    } else if evs[from].id == id {
        Some(from)
    } else {
        event_position(evs, id, from + 1)
    }
}

/// Ties match `m` to its event. The match's `event_id` holds the event's own
/// id on entry; on success it holds the event's position, the event's latest
/// match time takes the match's start into account, and the result is `true`.
/// A match whose event is unknown or is an exhibition is left as it is and
/// the result is `false`.
pub fn link_event(events: &mut Vec<Event>, m: &mut Match) -> (r: bool)
    ensures
        r == (event_position(old(events)@, old(m).event_id, 0) is Some && !has_infix(
            lower_of(old(events)@[event_position(old(events)@, old(m).event_id, 0)->Some_0].name@),
            showmatch_word(),
        )),
        !r ==> final(events)@ == old(events)@ && *final(m) == *old(m),
        r ==> {
            let p = event_position(old(events)@, old(m).event_id, 0)->Some_0;
            let e = old(events)@[p];
            &&& *final(m) == (Match { event_id: p as usize, ..*old(m) })
            &&& final(events)@ == old(events)@.update(
                p,
                (Event {
                    last_match_time: if e.last_match_time >= old(m).match_start_time {
                        e.last_match_time
                    } else {
                        old(m).match_start_time
                    },
                    ..e
                }),
            )
        },
{
    let n = events.len();
    let mut p: usize = 0;
    while p < n
        invariant
            n == events@.len(),
            0 <= p <= n,
            events@ == old(events)@,
            *m == *old(m),
            event_position(events@, m.event_id, 0) == event_position(events@, m.event_id, p as int),
        decreases n - p,
    {
        if events[p].id == m.event_id {
            if is_showmatch(events[p].name.as_str()) {
                return false;
            }
            let last = if events[p].last_match_time >= m.match_start_time {
                events[p].last_match_time
            } else {
                m.match_start_time
            };
            events[p].last_match_time = last;
            m.event_id = p;
            return true;
        }
        p += 1;
    }
    false
}

/// How many sides of the matches in `ms` are team `t` (a match of a team
/// against itself counts twice).
pub open spec fn appearances(ms: Seq<Match>, t: usize) -> nat
    decreases ms.len(),
{
    if ms.len() == 0 {
        0
    } else {
        appearances(ms.drop_last(), t) + (if ms.last().team_1_id == t {
            1nat
        } else {
            0nat
        }) + (if ms.last().team_2_id == t {
            1nat
        } else {
            0nat
        })
    }
}

/// How many matches of `ms` team `t` won.
pub open spec fn victories(ms: Seq<Match>, t: usize) -> nat
    decreases ms.len(),
{
    if ms.len() == 0 {
        0
    } else {
        victories(ms.drop_last(), t) + if ms.last().winning_team == t {
            1nat
        } else {
            0nat
        }
    }
}

/// Team `k` is the first of `ts` whose core the roster `ps` shares.
pub open spec fn is_first_core(ts: Seq<Team>, ps: Seq<Player>, k: int) -> bool {
    &&& 0 <= k < ts.len()
    &&& same_core(ts[k], ps)
    &&& forall|j: int| 0 <= j < k ==> !same_core(#[trigger] ts[j], ps)
}

/// `f` is the raw match `o` with its sides replaced by the first teams of `ts`
/// whose cores the rosters share, and its winner, given on entry as side 1 or
/// side 2, replaced by that side's team.
pub open spec fn assigned(o: Match, f: Match, ts: Seq<Team>) -> bool {
    &&& is_first_core(ts, o.team_1_players@, f.team_1_id as int)
    &&& is_first_core(ts, o.team_2_players@, f.team_2_id as int)
    &&& f.winning_team == if o.winning_team == 1 {
        f.team_1_id
    } else {
        f.team_2_id
    }
    &&& f == (Match {
        team_1_id: f.team_1_id,
        team_2_id: f.team_2_id,
        winning_team: f.winning_team,
        ..o
    })
}

/// Team `t` was started by one side of match `m`: it carries that side's name
/// and the side's first five players as its core.
pub open spec fn founded_by(t: Team, m: Match) -> bool {
    ||| t.name@ == m.team_1_name@ && t.core@ == m.team_1_players@.subrange(0, 5)
    ||| t.name@ == m.team_2_name@ && t.core@ == m.team_2_players@.subrange(0, 5)
}

/// Some side of some match of `ms` started team `t`.
pub open spec fn has_founder(t: Team, ms: Seq<Match>) -> bool {
    exists|i: int| 0 <= i < ms.len() && #[trigger] founded_by(t, ms[i])
}

proof fn lemma_first_core_match(ts: Seq<Team>, ps: Seq<Player>, from: int)
    requires
        0 <= from <= ts.len(),
    ensures
        first_core_match(ts, ps, from) is Some ==> {
            let k = first_core_match(ts, ps, from)->Some_0;
            &&& from <= k < ts.len()
            &&& same_core(ts[k], ps)
            &&& forall|j: int| from <= j < k ==> !same_core(#[trigger] ts[j], ps)
        },
        first_core_match(ts, ps, from) is None ==> forall|j: int|
            from <= j < ts.len() ==> !same_core(#[trigger] ts[j], ps),
    decreases ts.len() - from,
{
    if from < ts.len() {
        lemma_first_core_match(ts, ps, from + 1);
    }
}

proof fn lemma_first_core_kept(ts1: Seq<Team>, ts2: Seq<Team>, ps: Seq<Player>, k: int)
    requires
        ts1.len() <= ts2.len(),
        forall|j: int| 0 <= j < ts1.len() ==> (#[trigger] ts2[j]).core == ts1[j].core,
        is_first_core(ts1, ps, k),
    ensures
        is_first_core(ts2, ps, k),
{
    assert forall|j: int| 0 <= j < k implies !same_core(#[trigger] ts2[j], ps) by {
        assert(!same_core(ts1[j], ps));
    }
}

proof fn lemma_count_present(ps: Seq<Player>, j: int)
    requires
        0 <= j < ps.len(),
    ensures
        count_id(ps, ps[j].player_id) >= 1,
    decreases ps.len(),
{
    if j < ps.len() - 1 {
        lemma_count_present(ps.drop_last(), j);
    }
}

/// A roster shares at least `k` players with its own first `k` players.
proof fn lemma_overlap_own_prefix(ps: Seq<Player>, k: int)
    requires
        0 <= k <= ps.len(),
    ensures
        overlap(ps.subrange(0, k), ps) >= k,
    decreases k,
{
    if k > 0 {
        lemma_overlap_own_prefix(ps, k - 1);
        assert(ps.subrange(0, k).drop_last() =~= ps.subrange(0, k - 1));
        lemma_count_present(ps, k - 1);
    }
}

/// The result of `insert_team` is the first team whose core the roster shares.
proof fn lemma_inserted(before: Seq<Team>, after: Seq<Team>, name: Seq<char>, ps: Seq<Player>, r: usize)
    requires
        ps.len() >= 5,
        first_core_match(before, ps, 0) is Some ==> {
            &&& r as int == first_core_match(before, ps, 0)->Some_0
            &&& after == before
        },
        first_core_match(before, ps, 0) is None ==> {
            &&& r == before.len()
            &&& after.len() == before.len() + 1
            &&& after.subrange(0, r as int) == before
            &&& crate::roster::new_team(after[r as int], name, ps)
        },
    ensures
        is_first_core(after, ps, r as int),
        after.len() >= before.len(),
        forall|j: int| 0 <= j < before.len() ==> #[trigger] after[j] == before[j],
        r >= before.len() ==> after[r as int].matches_played == 0 && after[r as int].matches_won == 0,
{
    lemma_first_core_match(before, ps, 0);
    if first_core_match(before, ps, 0) is None {
        lemma_overlap_own_prefix(ps, 5);
        assert forall|j: int| 0 <= j < before.len() implies #[trigger] after[j] == before[j] by {
            assert(after.subrange(0, r as int)[j] == after[j]);
        }
        assert forall|j: int| 0 <= j < r implies !same_core(#[trigger] after[j], ps) by {
            assert(after[j] == before[j]);
        }
    }
}

proof fn lemma_counts_bounded(ms: Seq<Match>, t: usize)
    ensures
        appearances(ms, t) <= 2 * ms.len(),
        victories(ms, t) <= ms.len(),
    decreases ms.len(),
{
    if ms.len() > 0 {
        lemma_counts_bounded(ms.drop_last(), t);
    }
}

proof fn lemma_absent(ms: Seq<Match>, t: usize)
    requires
        forall|k: int| 0 <= k < ms.len() ==> (#[trigger] ms[k]).team_1_id != t && ms[k].team_2_id != t
            && ms[k].winning_team != t,
    ensures
        appearances(ms, t) == 0,
        victories(ms, t) == 0,
    decreases ms.len(),
{
    if ms.len() > 0 {
        lemma_absent(ms.drop_last(), t);
    }
}

/// The state of `assign_teams` after the first `i` matches: those matches
/// carry team positions, the rest are untouched, and every team's record
/// counts the matches done so far.
pub open spec fn assign_state(raw: Seq<Match>, ms: Seq<Match>, ts: Seq<Team>, i: int) -> bool {
    &&& ms.len() == raw.len()
    &&& raw.len() < u32::MAX / 2
    &&& 0 <= i <= raw.len()
    &&& ts.len() <= 2 * i
    &&& forall|k: int| i <= k < raw.len() ==> #[trigger] ms[k] == raw[k]
    &&& forall|k: int|
        0 <= k < raw.len() ==> (#[trigger] raw[k]).team_1_players@.len() >= 5 && raw[k].team_2_players@.len()
            >= 5
    &&& forall|k: int| 0 <= k < i ==> assigned(#[trigger] raw[k], ms[k], ts)
    &&& forall|t: int|
        0 <= t < ts.len() ==> (#[trigger] ts[t]).matches_played == appearances(ms.subrange(0, i), t as usize)
            && ts[t].matches_won == victories(ms.subrange(0, i), t as usize)
}

/// Merges the rosters of match `i` into teams and records the match.
#[verifier::rlimit(50)]
fn assign_match(matches: &mut Vec<Match>, teams: &mut Vec<Team>, i: usize, raw: Ghost<Seq<Match>>)
    requires
        assign_state(raw@, old(matches)@, old(teams)@, i as int),
        i < raw@.len(),
    ensures
        assign_state(raw@, final(matches)@, final(teams)@, i + 1),
        final(teams)@.len() >= old(teams)@.len(),
        forall|t: int|
            0 <= t < old(teams)@.len() ==> (#[trigger] final(teams)@[t]).name == old(teams)@[t].name
                && final(teams)@[t].core == old(teams)@[t].core,
        forall|t: int|
            old(teams)@.len() <= t < final(teams)@.len() ==> founded_by(#[trigger] final(teams)@[t], raw@[i as int]),
{
    let ghost raw = raw@;
    let ghost t0 = teams@;
    let ghost m0 = matches@;
    assert(matches@[i as int] == raw[i as int]);
    let idx1 = insert_team(teams, matches[i].team_1_name.as_str(), &matches[i].team_1_players);
    proof {
        lemma_inserted(t0, teams@, raw[i as int].team_1_name@, raw[i as int].team_1_players@, idx1);
    }
    let ghost t1 = teams@;
    let idx2 = insert_team(teams, matches[i].team_2_name.as_str(), &matches[i].team_2_players);
    proof {
        lemma_inserted(t1, teams@, raw[i as int].team_2_name@, raw[i as int].team_2_players@, idx2);
        lemma_first_core_kept(t1, teams@, raw[i as int].team_1_players@, idx1 as int);
    }
    let ghost t2 = teams@;
    let winner = if matches[i].winning_team == 1 {
        idx1
    } else {
        idx2
    };
    matches[i].team_1_id = idx1;
    matches[i].team_2_id = idx2;
    matches[i].winning_team = winner;
    let ghost prefix = matches@.subrange(0, i as int);
    proof {
        assert(prefix =~= m0.subrange(0, i as int));
        assert forall|k: int| 0 <= k < prefix.len() implies (#[trigger] prefix[k]).team_1_id < t0.len()
            && prefix[k].team_2_id < t0.len() && prefix[k].winning_team < t0.len() by {
            assert(assigned(raw[k], m0[k], t0));
        }
        lemma_counts_bounded(prefix, idx1);
        lemma_counts_bounded(prefix, idx2);
        lemma_counts_bounded(prefix, winner);
        if idx1 >= t0.len() {
            lemma_absent(prefix, idx1);
        }
        if idx2 >= t0.len() {
            lemma_absent(prefix, idx2);
        }
    }
    teams[idx1].matches_played = teams[idx1].matches_played + 1;
    teams[idx2].matches_played = teams[idx2].matches_played + 1;
    teams[winner].matches_won = teams[winner].matches_won + 1;
    proof {
        let ms = matches@.subrange(0, i + 1);
        assert(ms.drop_last() =~= prefix);
        assert forall|k: int| 0 <= k <= i implies assigned(#[trigger] raw[k], matches@[k], teams@) by {
            if k < i {
                assert(assigned(raw[k], m0[k], t0));
                lemma_first_core_kept(t0, teams@, raw[k].team_1_players@, m0[k].team_1_id as int);
                lemma_first_core_kept(t0, teams@, raw[k].team_2_players@, m0[k].team_2_id as int);
            } else {
                lemma_first_core_kept(t2, teams@, raw[k].team_1_players@, idx1 as int);
                lemma_first_core_kept(t2, teams@, raw[k].team_2_players@, idx2 as int);
            }
        }
    }
}

/// Merges the rosters of all matches into teams, in list order, and records
/// each team's matches played and won. On entry a match's winner is 1 or 2 (its
/// side); on exit every side and winner is a team position. `teams` starts
/// empty.
pub fn assign_teams(matches: &mut Vec<Match>, teams: &mut Vec<Team>)
    requires
        old(teams)@.len() == 0,
        old(matches)@.len() < u32::MAX / 2,
        forall|i: int|
            0 <= i < old(matches)@.len() ==> (#[trigger] old(matches)@[i]).team_1_players@.len() >= 5
                && old(matches)@[i].team_2_players@.len() >= 5,
    ensures
        final(matches)@.len() == old(matches)@.len(),
        forall|i: int|
            0 <= i < final(matches)@.len() ==> assigned(
                #[trigger] old(matches)@[i],
                final(matches)@[i],
                final(teams)@,
            ),
        forall|t: int|
            0 <= t < final(teams)@.len() ==> (#[trigger] final(teams)@[t]).matches_played == appearances(
                final(matches)@,
                t as usize,
            ) && final(teams)@[t].matches_won == victories(final(matches)@, t as usize),
        forall|t: int|
            0 <= t < final(teams)@.len() ==> has_founder(#[trigger] final(teams)@[t], old(matches)@),
{
    let ghost raw = matches@;
    let n = matches.len();
    let ghost mut origin: Seq<int> = Seq::empty();
    let mut i: usize = 0;
    while i < n
        invariant
            n == raw.len(),
            raw == old(matches)@,
            assign_state(raw, matches@, teams@, i as int),
            origin.len() == teams@.len(),
            forall|t: int|
                0 <= t < teams@.len() ==> 0 <= #[trigger] origin[t] < i && founded_by(teams@[t], raw[origin[t]]),
        decreases n - i,
    {
        let ghost before = teams@;
        assign_match(matches, teams, i, Ghost(raw));
        proof {
            let added = teams@.len() - before.len();
            let old_origin = origin;
            origin = origin + Seq::new(added as nat, |k: int| i as int);
            assert forall|t: int| 0 <= t < teams@.len() implies 0 <= #[trigger] origin[t] < i + 1 && founded_by(
                teams@[t],
                raw[origin[t]],
            ) by {
                if t < before.len() {
                    assert(origin[t] == old_origin[t]);
                    assert(founded_by(before[t], raw[old_origin[t]]));
                } else {
                    assert(origin[t] == i as int);
                }
            }
        }
        i += 1;
    }
    assert(matches@.subrange(0, n as int) =~= matches@);
    assert forall|t: int| 0 <= t < teams@.len() implies has_founder(#[trigger] teams@[t], raw) by {
        assert(founded_by(teams@[t], raw[origin[t]]));
    }

}

/// The team position that payout owner `tid` of event `e` resolves to after
/// the first `upto` matches: the first of them played at `e` with `tid` as one
/// of its raw sides gives that side's team position.
pub open spec fn payout_owner(raw: Seq<Match>, asg: Seq<Match>, e: usize, tid: usize, upto: int) -> Option<usize>
    decreases upto,
{
    if upto <= 0 {
        None
    } else if payout_owner(raw, asg, e, tid, upto - 1) is Some {
        payout_owner(raw, asg, e, tid, upto - 1)
    } else if asg[upto - 1].event_id == e && raw[upto - 1].team_1_id == tid {
        Some(asg[upto - 1].team_1_id)
    } else if asg[upto - 1].event_id == e && raw[upto - 1].team_2_id == tid {
        Some(asg[upto - 1].team_2_id)
    } else {
        None
    }
}

/// A payout once resolved: its owner becomes a team position and it counts
/// toward the ranking, or it stays as it was when no match of its event names
/// its owner.
pub open spec fn resolved(pd: PrizeDist, owner: Option<usize>) -> PrizeDist {
    match owner {
        Some(t) => PrizeDist { team_id: t, is_in_ranking: true, ..pd },
        None => pd,
    }
}

/// Event `f` is event `o` with every payout resolved by `owner_of`.
pub open spec fn payouts_resolved(o: Event, f: Event, raw: Seq<Match>, asg: Seq<Match>, e: usize, upto: int) -> bool {
    &&& f.id == o.id
    &&& f.name == o.name
    &&& f.is_lan == o.is_lan
    &&& f.last_match_time == o.last_match_time
    &&& f.prize_distribution@.len() == o.prize_distribution@.len()
    &&& forall|d: int|
        0 <= d < f.prize_distribution@.len() ==> #[trigger] f.prize_distribution@[d] == resolved(
            o.prize_distribution@[d],
            payout_owner(raw, asg, e, o.prize_distribution@[d].team_id, upto),
        )
}

/// Ties every payout to the team position of the side that it names, in the
/// order of the matches. `raw` holds the matches with raw team ids, `assigned`
/// the same matches once their sides are team positions (see
/// `assign_teams`); events are given by position. A payout counts toward the
/// ranking once resolved, and is resolved at most once.
pub fn resolve_payouts(events: &mut Vec<Event>, raw: &Vec<Match>, assigned: &Vec<Match>)
    requires
        raw@.len() == assigned@.len(),
        forall|i: int| 0 <= i < assigned@.len() ==> (#[trigger] assigned@[i]).event_id < old(events)@.len(),
        forall|e: int, d: int|
            0 <= e < old(events)@.len() && 0 <= d < old(events)@[e].prize_distribution@.len()
                ==> !(#[trigger] old(events)@[e].prize_distribution@[d]).is_in_ranking,
    ensures
        final(events)@.len() == old(events)@.len(),
        forall|e: int|
            0 <= e < final(events)@.len() ==> payouts_resolved(
                old(events)@[e],
                #[trigger] final(events)@[e],
                raw@,
                assigned@,
                e as usize,
                raw@.len() as int,
            ),
{
    let ghost evs = old(events)@;
    let n = raw.len();
    let mut i: usize = 0;
    while i < n
        invariant
            n == raw@.len(),
            n == assigned@.len(),
            0 <= i <= n,
            events@.len() == evs.len(),
            evs == old(events)@,
            forall|k: int| 0 <= k < assigned@.len() ==> (#[trigger] assigned@[k]).event_id < evs.len(),
            forall|x: int|
                0 <= x < events@.len() ==> payouts_resolved(evs[x], #[trigger] events@[x], raw@, assigned@, x as usize, i as int),
            forall|x: int, d: int|
                0 <= x < evs.len() && 0 <= d < evs[x].prize_distribution@.len()
                    ==> !(#[trigger] evs[x].prize_distribution@[d]).is_in_ranking,
        decreases n - i,
    {
        let e = assigned[i].event_id;
        let raw1 = raw[i].team_1_id;
        let raw2 = raw[i].team_2_id;
        let new1 = assigned[i].team_1_id;
        let new2 = assigned[i].team_2_id;
        let nd = events[e].prize_distribution.len();
        let ghost ev0 = events@;
        proof {
            assert(payouts_resolved(evs[e as int], ev0[e as int], raw@, assigned@, e, i as int));
        }
        let mut d: usize = 0;
        while d < nd
            invariant
                0 <= d <= nd,
                e < events@.len(),
                events@.len() == ev0.len(),
                nd == events@[e as int].prize_distribution@.len(),
                forall|x: int| 0 <= x < events@.len() && x != e ==> #[trigger] events@[x] == ev0[x],
                events@[e as int].id == ev0[e as int].id,
                events@[e as int].name == ev0[e as int].name,
                events@[e as int].is_lan == ev0[e as int].is_lan,
                events@[e as int].last_match_time == ev0[e as int].last_match_time,
                ev0[e as int].prize_distribution@.len() == nd,
                forall|y: int| d <= y < nd ==> #[trigger] events@[e as int].prize_distribution@[y]
                    == ev0[e as int].prize_distribution@[y],
                forall|y: int|
                    0 <= y < d ==> {
                        let p = ev0[e as int].prize_distribution@[y];
                        #[trigger] events@[e as int].prize_distribution@[y] == if !p.is_in_ranking && p.team_id
                            == raw1 {
                            PrizeDist { team_id: new1, is_in_ranking: true, ..p }
                        } else if !p.is_in_ranking && p.team_id == raw2 {
                            PrizeDist { team_id: new2, is_in_ranking: true, ..p }
                        } else {
                            p
                        }
                    },
            decreases nd - d,
        {
            let pd = events[e].prize_distribution[d];
            if !pd.is_in_ranking && pd.team_id == raw1 {
                events[e].prize_distribution[d].team_id = new1;
                events[e].prize_distribution[d].is_in_ranking = true;
            } else if !pd.is_in_ranking && pd.team_id == raw2 {
                events[e].prize_distribution[d].team_id = new2;
                events[e].prize_distribution[d].is_in_ranking = true;
            }
            d += 1;
        }
        let ne = events.len();
        proof {
            assert forall|x: int| 0 <= x < events@.len() implies payouts_resolved(
                evs[x],
                #[trigger] events@[x],
                raw@,
                assigned@,
                x as usize,
                i + 1,
            ) by {
                assert(payouts_resolved(evs[x], ev0[x], raw@, assigned@, x as usize, i as int));
                if x != e {
                    assert forall|y: int| 0 <= y < events@[x].prize_distribution@.len() implies
                        #[trigger] events@[x].prize_distribution@[y] == resolved(
                            evs[x].prize_distribution@[y],
                            payout_owner(raw@, assigned@, x as usize, evs[x].prize_distribution@[y].team_id, i + 1),
                        ) by {
                        let tid = evs[x].prize_distribution@[y].team_id;
                        assert(e == assigned@[i as int].event_id);
                        assert(x != e as int);
                        assert(x < ne);
                        assert(payout_owner(raw@, assigned@, x as usize, tid, i + 1) == payout_owner(
                            raw@,
                            assigned@,
                            x as usize,
                            tid,
                            i as int,
                        ));
                        assert(events@[x].prize_distribution@[y] == ev0[x].prize_distribution@[y]);
                    }
                } else {
                    assert forall|y: int| 0 <= y < events@[x].prize_distribution@.len() implies
                        #[trigger] events@[x].prize_distribution@[y] == resolved(
                            evs[x].prize_distribution@[y],
                            payout_owner(raw@, assigned@, x as usize, evs[x].prize_distribution@[y].team_id, i + 1),
                        ) by {
                        assert(ev0[x].prize_distribution@[y] == resolved(
                            evs[x].prize_distribution@[y],
                            payout_owner(raw@, assigned@, x as usize, evs[x].prize_distribution@[y].team_id, i as int),
                        ));
                        assert(!evs[x].prize_distribution@[y].is_in_ranking);
                    }
                }
            }
        }
        i += 1;
    }
}

/// The order in which matches are merged into teams: newest first, and in
/// list order among matches that started at the same moment. The result is a
/// permutation of the positions of `matches`.
pub fn newest_first(matches: &Vec<Match>) -> (r: Vec<usize>)
    ensures
        r@.len() == matches@.len(),
        forall|a: int| 0 <= a < r@.len() ==> r@[a] < matches@.len(),
        forall|a: int, b: int| 0 <= a < b < r@.len() ==> r@[a] != r@[b],
        forall|a: int, b: int|
            0 <= a < b < r@.len() ==> matches@[r@[a] as int].match_start_time > matches@[r@[b] as int].match_start_time
                || (matches@[r@[a] as int].match_start_time == matches@[r@[b] as int].match_start_time && r@[a] < r@[b]),
{
    let n = matches.len();
    let mut keys: Vec<u64> = Vec::new();
    let mut i: usize = 0;
    while i < n
        invariant
            n == matches@.len(),
            0 <= i <= n,
            keys@.len() == i,
            forall|k: int| 0 <= k < i ==> keys@[k] == matches@[k].match_start_time as u64,
        decreases n - i,
    {
        keys.push(matches[i].match_start_time as u64);
        i += 1;
    }
    best_indices(&keys, n)
}

} // verus!
