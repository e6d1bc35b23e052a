//! What every limiter offers.

use vstd::prelude::*;
use crate::error::RateLimitError;
use crate::turnstile::{Acquisition, TurnstileState};
use crate::lease::RateLimitLease;
use crate::statistics::RateLimiterStatistics;
use crate::time::{Duration, Instant};

verus! {

/// A limiter: permits are asked of it, at once or with a wait.
///
/// What is stated here holds of every limiter. Each limiter states on its
/// own operations exactly what they do.
pub trait RateLimiter {
    /// The limiter is sound. Building a limiter establishes this and every
    /// operation keeps it.
    spec fn wf(&self) -> bool;

    /// The part of the state that all limiters have.
    spec fn turnstile(&self) -> TurnstileState;

    /// Asks for `permit_count` permits without waiting.
    ///
    /// A request for more than the capacity is an error, and so is any
    /// request to a disposed limiter. Every other request gets a lease,
    /// acquired or not.
    fn attempt_acquire(&mut self, permit_count: u32, now: Instant) -> (r: Result<
        RateLimitLease,
        RateLimitError,
    >)
        requires
            old(self).wf(),
        ensures
            final(self).wf(),
            old(self).turnstile().precedes(final(self).turnstile()),
            final(self).turnstile().next_ticket == old(self).turnstile().next_ticket,
            permit_count > old(self).turnstile().capacity ==> r == Err::<
                RateLimitLease,
                RateLimitError,
            >(
                RateLimitError::PermitCountExceeded(
                    permit_count,
                    old(self).turnstile().capacity as u32,
                ),
            ) && final(self).turnstile() == old(self).turnstile(),
            permit_count <= old(self).turnstile().capacity && old(self).turnstile().disposed ==> r == Err::<
                RateLimitLease,
                RateLimitError,
            >(RateLimitError::Disposed) && final(self).turnstile() == old(self).turnstile(),
            permit_count <= old(self).turnstile().capacity && !old(self).turnstile().disposed ==> r is Ok,
            r matches Ok(lease) ==> (if lease.acquired() {
                final(self).turnstile().successful >= crate::statistics::bumped(
                    old(self).turnstile().successful,
                )
            } else {
                &&& lease.cleanup() is None
                &&& final(self).turnstile().failed == crate::statistics::bumped(
                    old(self).turnstile().failed,
                )
            }),
    ;

    /// Asks for `permit_count` permits and is ready to wait for them.
    /// `cancelled` says whether the caller's cancellation signal is already
    /// set.
    ///
    /// The request is decided at once, or it joins the queue and gets a
    /// ticket; a request that would join the queue while its cancellation
    /// signal is set is an error and changes nothing.
    fn acquire_async(&mut self, permit_count: u32, cancelled: bool, now: Instant) -> (r: Result<
        Acquisition,
        RateLimitError,
    >)
        requires
            old(self).wf(),
        ensures
            final(self).wf(),
            old(self).turnstile().precedes(final(self).turnstile()),
            permit_count > old(self).turnstile().capacity ==> r == Err::<Acquisition, RateLimitError>(
                RateLimitError::PermitCountExceeded(
                    permit_count,
                    old(self).turnstile().capacity as u32,
                ),
            ) && final(self).turnstile() == old(self).turnstile(),
            permit_count <= old(self).turnstile().capacity && old(self).turnstile().disposed ==> r == Err::<
                Acquisition,
                RateLimitError,
            >(RateLimitError::Disposed) && final(self).turnstile() == old(self).turnstile(),
            r == Err::<Acquisition, RateLimitError>(RateLimitError::Cancelled) ==> cancelled,
            r matches Ok(Acquisition::Pending(ticket)) ==> {
                &&& !cancelled
                &&& ticket == old(self).turnstile().next_ticket
                &&& final(self).turnstile().queue.len() > 0
                &&& final(self).turnstile().queue.last() == (crate::queue::Waiter {
                    ticket,
                    permits: permit_count,
                    abandoned: false,
                })
            },
            old(self).turnstile().queue_limit == 0 ==> !(r matches Ok(Acquisition::Pending(_)))
                && final(self).turnstile().queue.len() == 0,
    ;

    /// The counters at `now`.
    fn get_statistics(&self, now: Instant) -> (stats: RateLimiterStatistics)
        requires
            self.wf(),
        ensures
            0 <= stats.current_available_permits <= self.turnstile().capacity,
            stats.current_queued_count == self.turnstile().queued(),
            stats.total_successful_leases == self.turnstile().successful,
            stats.total_failed_leases == self.turnstile().failed,
    ;

    /// For how long the limiter has had all its permits and nobody waiting,
    /// if that is so at `now`.
    fn idle_duration(&self, now: Instant) -> (idle: Option<Duration>)
        requires
            self.wf(),
        ensures
            self.turnstile().queue.len() > 0 ==> idle is None,
    ;
}

/// A limiter whose permits come back with time.
pub trait ReplenishingRateLimiter: RateLimiter {
    /// Whether the permits are replenished by a timer rather than by calls
    /// of `try_replenish`.
    spec fn auto_replenishing(&self) -> bool;

    fn is_auto_replenishing(&self) -> (auto: bool)
        requires
            self.wf(),
        ensures
            auto == self.auto_replenishing(),
    ;

    /// The time between two replenishments.
    fn replenishment_period(&self) -> (period: Duration)
        requires
            self.wf(),
    ;

    /// Replenishes the permits by hand. Where a timer replenishes them this
    /// does nothing and the answer is `false`.
    fn try_replenish(&mut self, now: Instant) -> (replenished: bool)
        requires
            old(self).wf(),
        ensures
            final(self).wf(),
            old(self).turnstile().precedes(final(self).turnstile()),
            old(self).auto_replenishing() ==> !replenished && final(self).turnstile() == old(
                self,
            ).turnstile(),
    ;
}

} // verus!
