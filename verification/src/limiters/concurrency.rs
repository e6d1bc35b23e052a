//! The concurrency limiter: permits that come back when a lease is released.

use vstd::prelude::*;
use crate::error::RateLimitError;
use crate::turnstile::{
    answers, answers_waiting, returning, same_hint, Acquisition, Completion, Decision, Turnstile,
    TurnstileState,
};
use crate::lease::{LeaseCleanup, RateLimitLease};
use crate::queue::{
    lemma_drain, lemma_eviction_count, lemma_total_nothing,
    QueueProcessingOrder,
};
use crate::statistics::RateLimiterStatistics;
use crate::time::{Duration, Instant};
use crate::traits::RateLimiter;

verus! {

/// How a concurrency limiter is set up.
#[derive(Clone, Copy, Debug)]
pub struct ConcurrencyLimiterOptions {
    /// The permits that can be out at one time. At least one.
    pub permit_limit: u32,
    /// The most permits that waiting acquisitions may ask for together.
    pub queue_limit: u32,
    pub queue_processing_order: QueueProcessingOrder,
}

impl ConcurrencyLimiterOptions {
    /// Whether a limiter can be built from the options.
    pub open spec fn valid(self) -> bool {
        self.permit_limit > 0
    }

    /// What is wrong with the options, where something is.
    pub open spec fn fault(self) -> Seq<char> {
        "permit_limit must be greater than 0"@
    }

    /// The error that building a limiter from the options gives, if any.
    pub fn check(&self) -> (r: Option<RateLimitError>)
        ensures
            match r {
                Some(e) => !self.valid() && e.is_invalid(self.fault()),
                None => self.valid(),
            },
    {
        if self.permit_limit == 0 {
            Some(RateLimitError::invalid("permit_limit must be greater than 0"))
        } else {
            None
        }
    }

    /// The options, or an error if no limiter can be built from them.
    pub fn new(
        permit_limit: u32,
        queue_limit: u32,
        queue_processing_order: QueueProcessingOrder,
    ) -> (r: Result<ConcurrencyLimiterOptions, RateLimitError>)
        ensures
            match r {
                Ok(options) => options.valid() && options == (ConcurrencyLimiterOptions {
                    permit_limit,
                    queue_limit,
                    queue_processing_order,
                }),
                Err(e) => permit_limit == 0 && e.is_invalid(
                    (ConcurrencyLimiterOptions {
                        permit_limit,
                        queue_limit,
                        queue_processing_order,
                    }).fault(),
                ),
            },
    {
        if permit_limit == 0 {
            return Err(RateLimitError::invalid("permit_limit must be greater than 0"));
        }
        Ok(ConcurrencyLimiterOptions { permit_limit, queue_limit, queue_processing_order })
    }
}

/// The state of a concurrency limiter.
pub struct ConcurrencyState {
    pub turnstile: TurnstileState,
    /// The permits that are not out.
    pub available: nat,
}

impl ConcurrencyState {
    /// A limiter with all its permits.
    pub open spec fn initial(options: ConcurrencyLimiterOptions, now: Instant) -> ConcurrencyState {
        ConcurrencyState {
            turnstile: TurnstileState::initial(
                options.permit_limit as nat,
                options.queue_limit as nat,
                options.queue_processing_order,
                now,
            ),
            available: options.permit_limit as nat,
        }
    }

    /// What holds of every concurrency limiter: no more permits are
    /// available than there are, somebody waits only while permits are out,
    /// and the limiter is idle exactly while all permits are available.
    pub open spec fn inv(self) -> bool {
        &&& self.turnstile.inv()
        &&& self.available <= self.turnstile.capacity
        &&& self.turnstile.queue.len() > 0 ==> self.available < self.turnstile.capacity
        &&& self.turnstile.idle_since is Some <==> self.available == self.turnstile.capacity
    }

    /// What is done with a request for `n` permits.
    pub open spec fn decision(self, n: u32, waiting: bool, cancelled: bool) -> Decision {
        self.turnstile.decision(n, self.available, self.available > 0, waiting, cancelled)
    }

    /// The limiter after a request for `n` permits.
    pub open spec fn acquire(
        self,
        n: u32,
        waiting: bool,
        cancelled: bool,
        now: Instant,
    ) -> ConcurrencyState {
        match self.decision(n, waiting, cancelled) {
            Decision::Grant => {
                let left = (self.available - n) as nat;
                ConcurrencyState {
                    available: left,
                    turnstile: self.turnstile.with_success().settled(
                        left == self.turnstile.capacity,
                        now,
                    ),
                }
            },
            Decision::Reject => ConcurrencyState { turnstile: self.turnstile.with_failure(), ..self },
            Decision::Enqueue => {
                let leaving = self.turnstile.evicted_by(n);
                ConcurrencyState {
                    turnstile: self.turnstile.enqueued(n).with_failed(
                        leaving,
                        same_hint(leaving.len(), None),
                    ),
                    ..self
                }
            },
            _ => self,
        }
    }

    /// Whether `permits` permits can come back: the limiter is there and
    /// that many are out.
    pub open spec fn takes_back(self, permits: u32) -> bool {
        !self.turnstile.disposed && self.available + permits <= self.turnstile.capacity
    }

    /// The limiter after `permits` permits came back: they are available
    /// again, and the queue is served with what is available then.
    pub open spec fn returned(self, permits: u32, now: Instant) -> ConcurrencyState {
        if self.takes_back(permits) {
            let back = self.available + permits as nat;
            let left = (back - self.turnstile.drain_spent(back)) as nat;
            ConcurrencyState {
                available: left,
                turnstile: self.turnstile.drained(back, true).settled(
                    left == self.turnstile.capacity,
                    now,
                ),
            }
        } else {
            self
        }
    }

    /// The limiter after the release of a lease with the given cleanup: the
    /// permits of an acquired lease come back.
    pub open spec fn released(
        self,
        acquired: bool,
        cleanup: Option<LeaseCleanup>,
        now: Instant,
    ) -> ConcurrencyState {
        match cleanup {
            Some(LeaseCleanup::ReturnPermits(permits)) => if acquired {
                self.returned(permits, now)
            } else {
                self
            },
            _ => self,
        }
    }

    /// The limiter after the wait with the ticket was cancelled.
    pub open spec fn cancelled(self, ticket: u64, now: Instant) -> ConcurrencyState {
        ConcurrencyState {
            turnstile: self.turnstile.without(ticket).settled(
                self.available == self.turnstile.capacity,
                now,
            ),
            ..self
        }
    }

    /// The limiter after the waiter with the ticket went away.
    pub open spec fn abandoned(self, ticket: u64) -> ConcurrencyState {
        ConcurrencyState { turnstile: self.turnstile.with_abandoned(ticket), ..self }
    }

    /// The limiter disposed: every waiter is sent away with a lease that
    /// was not acquired.
    pub open spec fn disposed(self, now: Instant) -> ConcurrencyState {
        ConcurrencyState {
            turnstile: self.turnstile.shut().with_failed(
                self.turnstile.queue,
                same_hint(self.turnstile.queue.len(), None),
            ).settled(self.available == self.turnstile.capacity, now),
            ..self
        }
    }

    /// The limiter after its completions were collected.
    pub open spec fn collected(self) -> ConcurrencyState {
        ConcurrencyState { turnstile: self.turnstile.collected(), ..self }
    }
}

impl ConcurrencyState {
    /// Releasing a lease that was not acquired changes nothing.
    pub proof fn law_release_of_unacquired(self, cleanup: Option<LeaseCleanup>, now: Instant)
        ensures
            self.released(false, cleanup, now) == self,
    {
    }

    /// Releasing a lease whose cleanup is gone changes nothing. A release
    /// takes the cleanup out of the lease, so the permits of one lease come
    /// back once, however often it is released.
    pub proof fn law_release_once(self, acquired: bool, now: Instant)
        ensures
            self.released(acquired, None, now) == self,
    {
    }

    /// Permits that were acquired and come back are available again, but for
    /// those that the waiters get on their return. Where nobody waits the
    /// limiter has as many permits as before.
    pub proof fn law_round_trip(self, n: u32, then: Instant, now: Instant)
        requires
            self.inv(),
            self.decision(n, false, false) == Decision::Grant,
        ensures
            self.acquire(n, false, false, then).returned(n, now).available + self.turnstile.drain_spent(
                self.available,
            ) == self.available,
            self.turnstile.queue.len() == 0 ==> self.acquire(n, false, false, then).returned(
                n,
                now,
            ).available == self.available,
    {
        lemma_drain(self.turnstile.queue, self.available, self.turnstile.order);
    }

    /// A request for all permits is granted when all of them are available.
    pub proof fn law_full_grant(self, waiting: bool, cancelled: bool)
        requires
            self.inv(),
            !self.turnstile.disposed,
            self.available == self.turnstile.capacity,
        ensures
            self.decision(self.turnstile.capacity as u32, waiting, cancelled) == Decision::Grant,
    {
    }
}

/// A limiter for the number of things that go on at one time.
///
/// It holds `permit_limit` permits. An acquired lease takes its permits out,
/// and its release brings them back and serves the queue.
pub struct ConcurrencyLimiter {
    config: ConcurrencyLimiterOptions,
    turnstile: Turnstile,
    available_permits: u32,
}

impl View for ConcurrencyLimiter {
    type V = ConcurrencyState;

    closed spec fn view(&self) -> ConcurrencyState {
        ConcurrencyState { turnstile: self.turnstile@, available: self.available_permits as nat }
    }
}

impl ConcurrencyLimiter {
    /// The options that the limiter was built from.
    pub closed spec fn options(&self) -> ConcurrencyLimiterOptions {
        self.config
    }

    /// The limiter is sound: its state is as `ConcurrencyState::inv` says
    /// and agrees with its options.
    pub closed spec fn well_formed(&self) -> bool {
        &&& self.turnstile.wf()
        &&& self@.inv()
        &&& self.config.valid()
        &&& self@.turnstile.capacity == self.config.permit_limit
        &&& self@.turnstile.queue_limit == self.config.queue_limit
        &&& self@.turnstile.order == self.config.queue_processing_order
    }

    pub proof fn lemma_well_formed(&self)
        requires
            self.wf(),
        ensures
            self@.inv(),
            self.options().valid(),
            self@.turnstile.capacity == self.options().permit_limit,
            self@.turnstile.queue_limit == self.options().queue_limit,
            self@.turnstile.order == self.options().queue_processing_order,
    {
    }

    /// A limiter with all its permits, idle since `now`.
    pub fn new(options: ConcurrencyLimiterOptions, now: Instant) -> (r: Result<
        ConcurrencyLimiter,
        RateLimitError,
    >)
        ensures
            match r {
                Ok(limiter) => {
                    &&& options.valid()
                    &&& limiter.wf()
                    &&& limiter.options() == options
                    &&& limiter@ == ConcurrencyState::initial(options, now)
                },
                Err(e) => !options.valid() && e.is_invalid(options.fault()),
            },
    {
        if options.permit_limit == 0 {
            return Err(RateLimitError::invalid("permit_limit must be greater than 0"));
        }
        let turnstile = Turnstile::new(
            options.permit_limit,
            options.queue_limit,
            options.queue_processing_order,
            now,
        );
        proof {
            turnstile.lemma_wf();
        }
        Ok(ConcurrencyLimiter { config: options, turnstile, available_permits: options.permit_limit })
    }

    pub fn config(&self) -> (options: ConcurrencyLimiterOptions)
        ensures
            options == self.options(),
    {
        self.config
    }

    /// The step that both forms of acquisition share.
    fn acquire(&mut self, n: u32, waiting: bool, cancelled: bool, now: Instant) -> (r: Result<
        Acquisition,
        RateLimitError,
    >)
        requires
            old(self).wf(),
        ensures
            final(self).wf(),
            final(self).options() == old(self).options(),
            old(self)@.turnstile.precedes(final(self)@.turnstile),
            final(self)@ == old(self)@.acquire(n, waiting, cancelled, now),
            answers_waiting(
                r,
                old(self)@.decision(n, waiting, cancelled),
                n,
                old(self)@.turnstile.capacity,
                returning(n),
                None,
                old(self)@.turnstile.next_ticket,
            ),
    {
        proof {
            self.turnstile.lemma_wf();
        }
        let decision = self.turnstile.decide(
            n,
            self.available_permits,
            self.available_permits > 0,
            waiting,
            cancelled,
        );
        match decision {
            Decision::Exceeded => Err(
                RateLimitError::PermitCountExceeded(n, self.config.permit_limit),
            ),
            Decision::Disposed => Err(RateLimitError::Disposed),
            Decision::Cancelled => Err(RateLimitError::Cancelled),
            Decision::Grant => {
                self.available_permits = self.available_permits - n;
                self.turnstile.count_success();
                self.turnstile.settle(self.available_permits == self.config.permit_limit, now);
                proof {
                    self.turnstile.lemma_wf();
                }
                if n > 0 {
                    Ok(
                        Acquisition::Ready(
                            RateLimitLease::success_with_cleanup(LeaseCleanup::ReturnPermits(n)),
                        ),
                    )
                } else {
                    Ok(Acquisition::Ready(RateLimitLease::success()))
                }
            },
            Decision::Reject => {
                self.turnstile.count_failure();
                proof {
                    self.turnstile.lemma_wf();
                }
                Ok(Acquisition::Ready(RateLimitLease::failed(None)))
            },
            Decision::Enqueue => {
                let (ticket, leaving) = self.turnstile.enqueue(n);
                self.turnstile.fail_each(&leaving, None);
                proof {
                    self.turnstile.lemma_wf();
                }
                Ok(Acquisition::Pending(ticket))
            },
        }
    }

    /// Brings `permits` permits back and serves the queue. Nothing happens
    /// if the limiter is disposed or that many permits are not out.
    pub fn return_permits(&mut self, permits: u32, now: Instant)
        requires
            old(self).wf(),
        ensures
            final(self).wf(),
            final(self).options() == old(self).options(),
            old(self)@.turnstile.precedes(final(self)@.turnstile),
            final(self)@ == old(self)@.returned(permits, now),
    {
        proof {
            self.turnstile.lemma_wf();
        }
        if self.turnstile.is_disposed() || permits > self.config.permit_limit - self.available_permits {
            return ;
        }
        let back = self.available_permits + permits;
        proof {
            self.turnstile@.lemma_drain_leaves_busy(back as nat, true);
        }
        let spent = self.turnstile.drain(back, true);
        self.available_permits = back - spent;
        self.turnstile.settle(self.available_permits == self.config.permit_limit, now);
        proof {
            self.turnstile.lemma_wf();
        }
    }

    /// Releases a lease: its cleanup is taken out of it and carried out. A
    /// lease without cleanup, or released before, changes nothing.
    pub fn release(&mut self, lease: &mut RateLimitLease, now: Instant)
        requires
            old(self).wf(),
        ensures
            final(self).wf(),
            final(self).options() == old(self).options(),
            old(self)@.turnstile.precedes(final(self)@.turnstile),
            final(self)@ == old(self)@.released(old(lease).acquired(), old(lease).cleanup(), now),
            final(lease).cleanup() is None,
            final(lease).acquired() == old(lease).acquired(),
            final(lease).metadata() == old(lease).metadata(),
    {
        let acquired = lease.is_acquired();
        match lease.take_cleanup() {
            Some(LeaseCleanup::ReturnPermits(permits)) => {
                if acquired {
                    self.return_permits(permits, now);
                }
            },
            _ => {},
        }
    }

    /// Cancels the wait with the ticket and says whether it was still
    /// waiting. If it was not, its completion has been or is to be
    /// collected, and a lease that it was granted is to be released.
    pub fn cancel(&mut self, ticket: u64, now: Instant) -> (found: bool)
        requires
            old(self).wf(),
        ensures
            final(self).wf(),
            final(self).options() == old(self).options(),
            old(self)@.turnstile.precedes(final(self)@.turnstile),
            final(self)@ == old(self)@.cancelled(ticket, now),
            found == old(self)@.turnstile.holds(ticket),
    {
        let found = self.turnstile.cancel(ticket);
        self.turnstile.settle(self.available_permits == self.config.permit_limit, now);
        proof {
            self.turnstile.lemma_wf();
        }
        found
    }

    /// Notes that nobody waits for the outcome of the wait with the ticket
    /// any more, and says whether it was still waiting. The waiter leaves
    /// the queue when its turn comes.
    pub fn abandon(&mut self, ticket: u64) -> (found: bool)
        requires
            old(self).wf(),
        ensures
            final(self).wf(),
            final(self).options() == old(self).options(),
            old(self)@.turnstile.precedes(final(self)@.turnstile),
            final(self)@ == old(self)@.abandoned(ticket),
            found == old(self)@.turnstile.holds(ticket),
    {
        let found = self.turnstile.abandon(ticket);
        proof {
            self.turnstile.lemma_wf();
        }
        found
    }

    /// Disposes the limiter. Every waiter is sent away with a lease that was
    /// not acquired, and from now on requests are errors.
    pub fn dispose(&mut self, now: Instant)
        requires
            old(self).wf(),
        ensures
            final(self).wf(),
            final(self).options() == old(self).options(),
            old(self)@.turnstile.precedes(final(self)@.turnstile),
            final(self)@ == old(self)@.disposed(now),
    {
        let waiters = self.turnstile.shut();
        self.turnstile.fail_each(&waiters, None);
        self.turnstile.settle(self.available_permits == self.config.permit_limit, now);
        proof {
            self.turnstile.lemma_wf();
        }
    }

    /// Hands over the waits that ended since the last call, the earliest
    /// first.
    pub fn take_completions(&mut self) -> (completions: Vec<Completion>)
        requires
            old(self).wf(),
        ensures
            final(self).wf(),
            final(self).options() == old(self).options(),
            old(self)@.turnstile.precedes(final(self)@.turnstile),
            final(self)@ == old(self)@.collected(),
            completions@ == old(self)@.turnstile.completions,
    {
        let completions = self.turnstile.take_completions();
        proof {
            self.turnstile.lemma_wf();
        }
        completions
    }
}

impl RateLimiter for ConcurrencyLimiter {
    open spec fn wf(&self) -> bool {
        self.well_formed()
    }

    open spec fn turnstile(&self) -> TurnstileState {
        self@.turnstile
    }

    fn attempt_acquire(&mut self, permit_count: u32, now: Instant) -> (r: Result<
        RateLimitLease,
        RateLimitError,
    >)
        ensures
            final(self).options() == old(self).options(),
            old(self)@.turnstile.precedes(final(self)@.turnstile),
            final(self)@ == old(self)@.acquire(permit_count, false, false, now),
            answers(
                r,
                old(self)@.decision(permit_count, false, false),
                permit_count,
                old(self)@.turnstile.capacity,
                returning(permit_count),
                None,
            ),
    {
        proof {
            self.turnstile.lemma_wf();
        }
        match self.acquire(permit_count, false, false, now) {
            Ok(Acquisition::Ready(lease)) => Ok(lease),
            // A request that is not ready to wait never joins the queue.
            Ok(Acquisition::Pending(_)) => Err(RateLimitError::QueueLimitExceeded),
            Err(e) => Err(e),
        }
    }

    fn acquire_async(&mut self, permit_count: u32, cancelled: bool, now: Instant) -> (r: Result<
        Acquisition,
        RateLimitError,
    >)
        ensures
            final(self).options() == old(self).options(),
            old(self)@.turnstile.precedes(final(self)@.turnstile),
            final(self)@ == old(self)@.acquire(permit_count, true, cancelled, now),
            answers_waiting(
                r,
                old(self)@.decision(permit_count, true, cancelled),
                permit_count,
                old(self)@.turnstile.capacity,
                returning(permit_count),
                None,
                old(self)@.turnstile.next_ticket,
            ),
    {
        proof {
            self.turnstile.lemma_wf();
            lemma_total_nothing(self@.turnstile.queue);
            lemma_eviction_count(
                self@.turnstile.queue,
                permit_count as nat,
                self@.turnstile.queue_limit,
            );
        }
        self.acquire(permit_count, true, cancelled, now)
    }

    fn get_statistics(&self, now: Instant) -> (stats: RateLimiterStatistics)
        ensures
            stats.current_available_permits == self@.available,
    {
        self.turnstile.statistics(self.available_permits)
    }

    fn idle_duration(&self, now: Instant) -> (idle: Option<Duration>)
        ensures
            idle == crate::turnstile::idle_for(self@.turnstile.idle_since, now),
    {
        self.turnstile.idle_duration(now)
    }
}

} // verus!
