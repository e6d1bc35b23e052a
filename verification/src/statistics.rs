//! Snapshots of a limiter's counters.

use vstd::prelude::*;

verus! {

/// What a limiter reports about itself at one moment.
#[derive(Debug, Clone, PartialEq, Eq)]
pub struct RateLimiterStatistics {
    /// Permits that could be acquired right now.
    pub current_available_permits: i64,
    /// Permits requested by the acquisitions that are waiting.
    pub current_queued_count: u32,
    /// Leases handed out as acquired since the limiter was built.
    pub total_successful_leases: u64,
    /// Leases handed out as not acquired since the limiter was built.
    pub total_failed_leases: u64,
}

impl RateLimiterStatistics {
    pub fn new(
        current_available_permits: i64,
        current_queued_count: u32,
        total_successful_leases: u64,
        total_failed_leases: u64,
    ) -> (stats: RateLimiterStatistics)
        ensures
            stats.current_available_permits == current_available_permits,
            stats.current_queued_count == current_queued_count,
            stats.total_successful_leases == total_successful_leases,
            stats.total_failed_leases == total_failed_leases,
    {
        RateLimiterStatistics {
            current_available_permits,
            current_queued_count,
            total_successful_leases,
            total_failed_leases,
        }
    }
}

/// A counter one step on; it stays at the largest `u64` once it is there.
pub open spec fn bumped(count: nat) -> nat {
    if count < u64::MAX {
        count + 1
    } else {
        count
    }
}

/// A counter `steps` steps on.
pub open spec fn bumped_by(count: nat, steps: nat) -> nat {
    clamp_count(count + steps)
}

/// `n`, or the largest `u64` if `n` is beyond it.
pub open spec fn clamp_count(n: nat) -> nat {
    if n > u64::MAX {
        u64::MAX as nat
    } else {
        n
    }
}

pub fn bump(count: u64) -> (r: u64)
    ensures
        r == bumped(count as nat),
        r >= count,
{
    count.saturating_add(1)
}

} // verus!
