use vstd::prelude::*;

use crate::error::RankError;

verus! {

/// Seconds in the default grace period: thirty days.
pub const DEFAULT_GRACE_PERIOD: u32 = 2592000;

/// The integer settings of one ranking run. Built once, then only read.
///
/// The real-valued settings (Elo scale, decay exponent, factor weights, seed
/// bounds) belong to the caller that does the arithmetic.
#[derive(Debug, Clone, Copy, PartialEq, Eq, Structural)]
pub struct RankingContext {
    /// Rank of the value that serves as the normalization reference.
    pub top_outlier_count: usize,
    /// How many of a team's best opponent values are summed.
    pub factor_bucket_size: usize,
    pub time_window_start: u32,
    pub time_window_end: u32,
    pub time_grace_period: u32,
    pub min_matches_for_ranking: u32,
    pub min_wins_for_ranking: u32,
}

impl RankingContext {
    /// The window leaves some time once the grace period is taken off its end.
    pub open spec fn window_ok(self) -> bool {
        self.time_window_start + self.time_grace_period < self.time_window_end
    }

    /// The first configuration error for a population of `n_teams`, if any.
    pub open spec fn config_error(self, n_teams: nat) -> Option<RankError> {
        if self.top_outlier_count == 0 || self.top_outlier_count > n_teams {
            Some(RankError::BadOutlierCount)
        } else if self.factor_bucket_size > n_teams {
            Some(RankError::BadBucketSize)
        } else if !self.window_ok() {
            Some(RankError::EmptyTimeWindow)
        } else {
            None
        }
    }

    /// The default settings: outlier depth 5, bucket 10, the whole `u32` time
    /// range with a thirty-day grace period, and eligibility from 10 matches
    /// and 1 win.
    pub fn default() -> (r: Self)
        ensures
            r.top_outlier_count == 5,
            r.factor_bucket_size == 10,
            r.time_window_start == 0,
            r.time_window_end == u32::MAX,
            r.time_grace_period == DEFAULT_GRACE_PERIOD,
            r.min_matches_for_ranking == 10,
            r.min_wins_for_ranking == 1,
            r.window_ok(),
    {
        RankingContext {
            top_outlier_count: 5,
            factor_bucket_size: 10,
            time_window_start: 0,
            time_window_end: u32::MAX,
            time_grace_period: DEFAULT_GRACE_PERIOD,
            min_matches_for_ranking: 10,
            min_wins_for_ranking: 1,
        }
    }

    /// Checks these settings against a population of `n_teams` teams.
    pub fn check(&self, n_teams: usize) -> (r: Result<(), RankError>)
        ensures
            r is Ok <==> self.config_error(n_teams as nat) is None,
            r is Err ==> r == Err::<(), RankError>(self.config_error(n_teams as nat)->Some_0),
    {
        if self.top_outlier_count == 0 || self.top_outlier_count > n_teams {
            Err(RankError::BadOutlierCount)
        } else if self.factor_bucket_size > n_teams {
            Err(RankError::BadBucketSize)
        } else {
            self.check_window()
        }
    }

    /// Checks that the time window leaves some time after its grace period.
    pub fn check_window(&self) -> (r: Result<(), RankError>)
        ensures
            r is Ok <==> self.window_ok(),
            r is Err ==> r == Err::<(), RankError>(RankError::EmptyTimeWindow),
    {
        if self.time_window_start as u64 + self.time_grace_period as u64 >= self.time_window_end as u64 {
            Err(RankError::EmptyTimeWindow)
        } else {
            Ok(())
        }
    }

    /// The time decay of a moment as a fraction `(above, span)`: `above` is
    /// how far `time`, clamped into the window less its grace period, lies
    /// past the window's start, and `span` is the length of that range. The
    /// fraction is 0 at the window's start and 1 from the grace period on.
    pub fn time_mod(&self, time: u32) -> (r: (u32, u32))
        requires
            self.window_ok(),
        ensures
            r.1 == self.time_window_end - self.time_window_start - self.time_grace_period,
            r.1 > 0,
            r.0 <= r.1,
            time <= self.time_window_start ==> r.0 == 0,
            time >= self.time_window_end - self.time_grace_period ==> r.0 == r.1,
            self.time_window_start <= time <= self.time_window_end - self.time_grace_period
                ==> r.0 == time - self.time_window_start,
    {
        let last = self.time_window_end - self.time_grace_period;
        let clamped = if time < self.time_window_start {
            self.time_window_start
        } else if time > last {
            last
        } else {
            time
        };
        (clamped - self.time_window_start, last - self.time_window_start)
    }
}

} // verus!
