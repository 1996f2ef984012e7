use vstd::prelude::*;

use crate::context::RankingContext;
use crate::model::Team;

verus! {

/// The positions of the teams that may appear in a ranking, in order. The
/// others stay in the collection, where they still count as opponents.
pub fn eligible_teams(teams: &Vec<Team>, ctx: &RankingContext) -> (r: Vec<usize>)
    ensures
        forall|k: int| 0 <= k < r@.len() ==> #[trigger] r@[k] < teams@.len() && teams@[r@[k] as int].eligible(*ctx),
        forall|a: int, b: int| 0 <= a < b < r@.len() ==> r@[a] < r@[b],
        forall|i: int| 0 <= i < teams@.len() && (#[trigger] teams@[i]).eligible(*ctx) ==> r@.contains(i as usize),
{
    let mut out: Vec<usize> = Vec::new();
    let n = teams.len();
    let mut i: usize = 0;
    while i < n
        invariant
            n == teams@.len(),
            0 <= i <= n,
            forall|k: int| 0 <= k < out@.len() ==> #[trigger] out@[k] < i && teams@[out@[k] as int].eligible(*ctx),
            forall|a: int, b: int| 0 <= a < b < out@.len() ==> out@[a] < out@[b],
            forall|j: int| 0 <= j < i && (#[trigger] teams@[j]).eligible(*ctx) ==> out@.contains(j as usize),
        decreases n - i,
    {
        if teams[i].ranking_eligible(ctx) {
            let ghost before = out@;
            out.push(i);
            proof {
                assert(out@[out@.len() - 1] == i);
                assert forall|j: int| 0 <= j <= i && (#[trigger] teams@[j]).eligible(*ctx) implies out@.contains(j as usize) by {
                    if j < i {
                        let k = choose|k: int| 0 <= k < before.len() && before[k] == j as usize;
                        assert(out@[k] == j as usize);
                    }
                }
            }
        }
        i += 1;
    }
    out
}

} // verus!
