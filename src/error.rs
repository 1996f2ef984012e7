use vstd::prelude::*;

verus! {

/// What makes a ranking run impossible. Every variant is detected before any
/// result is produced.
#[derive(Debug, Clone, Copy, PartialEq, Eq, Structural)]
pub enum RankError {
    /// A match names a team index outside the team collection.
    TeamOutOfRange { match_index: usize },
    /// A match's winner is neither of its two teams.
    WinnerNotInMatch { match_index: usize },
    /// A map of a match ended with equal scores, so it has no winner.
    TiedMap { match_index: usize, map_index: usize },
    /// The outlier depth is zero or exceeds the number of teams.
    BadOutlierCount,
    /// The factor bucket is larger than the number of teams.
    BadBucketSize,
    /// The time window minus its grace period leaves no time at all.
    EmptyTimeWindow,
}

} // verus!
