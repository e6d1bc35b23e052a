//! The fixed-window limiter: permits that are used up and come back all at
//! once when a new window begins.

use vstd::prelude::*;
use crate::error::RateLimitError;
use crate::turnstile::{
    answers, answers_waiting, idle_for, same_hint, Acquisition, Completion, Decision, Turnstile,
    TurnstileState,
};
use crate::lease::RateLimitLease;
use crate::queue::{lemma_eviction_count, lemma_total_nothing, QueueProcessingOrder};
use crate::statistics::RateLimiterStatistics;
use crate::time::{clamp_u64, Duration, Instant};
use crate::traits::{RateLimiter, ReplenishingRateLimiter};

verus! {

/// How a fixed-window limiter is set up.
#[derive(Clone, Copy, Debug)]
pub struct FixedWindowRateLimiterOptions {
    /// The permits of one window. At least one.
    pub permit_limit: u32,
    /// How long a window lasts. Longer than nothing.
    pub window: Duration,
    /// The most permits that waiting acquisitions may ask for together.
    pub queue_limit: u32,
    pub queue_processing_order: QueueProcessingOrder,
    /// Whether a timer begins the windows. Where none does, a window that
    /// is over gives way to a new one at the next request, and
    /// `try_replenish` begins one at any time.
    pub auto_replenishment: bool,
}

impl FixedWindowRateLimiterOptions {
    /// Whether a limiter can be built from the options.
    pub open spec fn valid(self) -> bool {
        self.permit_limit > 0 && self.window@ > 0
    }

    /// What is wrong with the options, where something is.
    pub open spec fn fault(self) -> Seq<char> {
        if self.permit_limit == 0 {
            "permit_limit must be greater than 0"@
        } else {
            "window must be greater than zero"@
        }
    }

    /// The options, or an error if no limiter can be built from them.
    pub fn new(
        permit_limit: u32,
        window: Duration,
        queue_limit: u32,
        queue_processing_order: QueueProcessingOrder,
        auto_replenishment: bool,
    ) -> (r: Result<FixedWindowRateLimiterOptions, RateLimitError>)
        ensures
            ({
                let options = FixedWindowRateLimiterOptions {
                    permit_limit,
                    window,
                    queue_limit,
                    queue_processing_order,
                    auto_replenishment,
                };
                match r {
                    Ok(made) => options.valid() && made == options,
                    Err(e) => !options.valid() && e.is_invalid(options.fault()),
                }
            }),
    {
        let options = FixedWindowRateLimiterOptions {
            permit_limit,
            window,
            queue_limit,
            queue_processing_order,
            auto_replenishment,
        };
        match options.check() {
            Some(e) => Err(e),
            None => Ok(options),
        }
    }

    /// The error that building a limiter from the options gives, if any.
    pub fn check(&self) -> (r: Option<RateLimitError>)
        ensures
            match r {
                Some(e) => !self.valid() && e.is_invalid(self.fault()),
                None => self.valid(),
            },
    {
        if self.permit_limit == 0 {
            Some(RateLimitError::invalid("permit_limit must be greater than 0"))
        } else if self.window.is_zero() {
            Some(RateLimitError::invalid("window must be greater than zero"))
        } else {
            None
        }
    }
}

/// The state of a fixed-window limiter.
pub struct FixedWindowState {
    pub turnstile: TurnstileState,
    /// The permits that are left in the window.
    pub available: nat,
    pub window: Duration,
    pub auto_replenishment: bool,
    /// When the window began.
    pub window_start: Instant,
}

impl FixedWindowState {
    /// A limiter at the beginning of its first window.
    pub open spec fn initial(options: FixedWindowRateLimiterOptions, now: Instant) -> FixedWindowState {
        FixedWindowState {
            turnstile: TurnstileState::initial(
                options.permit_limit as nat,
                options.queue_limit as nat,
                options.queue_processing_order,
                now,
            ),
            available: options.permit_limit as nat,
            window: options.window,
            auto_replenishment: options.auto_replenishment,
            window_start: now,
        }
    }

    /// What holds of every fixed-window limiter: no more permits are
    /// available than a window has, somebody waits only while permits are
    /// used, and the limiter is idle exactly while all permits are there.
    pub open spec fn inv(self) -> bool {
        &&& self.turnstile.inv()
        &&& self.window@ > 0
        &&& self.available <= self.turnstile.capacity
        &&& self.turnstile.queue.len() > 0 ==> self.available < self.turnstile.capacity
        &&& self.turnstile.idle_since is Some <==> self.available == self.turnstile.capacity
    }

    /// How much of the window has passed at `now`.
    pub open spec fn elapsed(self, now: Instant) -> nat {
        clamp_u64(now@ - self.window_start@)
    }

    /// Whether the window is over at `now`.
    pub open spec fn window_over(self, now: Instant) -> bool {
        self.elapsed(now) >= self.window@
    }

    /// How long a request for `n` permits that was turned down at `now`
    /// should wait: for the rest of the window, if a window can hold it.
    pub open spec fn retry_after(self, n: u32, now: Instant) -> Duration {
        if n <= self.turnstile.capacity {
            Duration { nanos: clamp_u64(self.window@ - self.elapsed(now)) as u64 }
        } else {
            self.window
        }
    }

    /// The limiter after a new window began at `now`: all permits are
    /// there, and the queue is served with them.
    pub open spec fn replenished(self, now: Instant) -> FixedWindowState {
        if self.turnstile.disposed {
            self
        } else {
            let fresh = self.turnstile.capacity;
            let left = (fresh - self.turnstile.drain_spent(fresh)) as nat;
            FixedWindowState {
                available: left,
                window_start: now,
                turnstile: self.turnstile.drained(fresh, false).settled(
                    left == self.turnstile.capacity,
                    now,
                ),
                ..self
            }
        }
    }

    /// The state in which a request for `n` permits at `now` is decided:
    /// where no timer begins the windows and the window is over, a new one
    /// has begun.
    pub open spec fn entered(self, n: u32, now: Instant) -> FixedWindowState {
        if n <= self.turnstile.capacity && !self.auto_replenishment && self.window_over(now) {
            self.replenished(now)
        } else {
            self
        }
    }

    /// What is done with a request for `n` permits in this state.
    pub open spec fn decision(self, n: u32, waiting: bool, cancelled: bool) -> Decision {
        self.turnstile.decision(n, self.available, self.available > 0, waiting, cancelled)
    }

    /// The limiter after a request for `n` permits at `now`.
    pub open spec fn acquire(
        self,
        n: u32,
        waiting: bool,
        cancelled: bool,
        now: Instant,
    ) -> FixedWindowState {
        let entered = self.entered(n, now);
        match entered.decision(n, waiting, cancelled) {
            Decision::Grant => {
                let left = (entered.available - n) as nat;
                FixedWindowState {
                    available: left,
                    turnstile: entered.turnstile.with_success().settled(
                        left == entered.turnstile.capacity,
                        now,
                    ),
                    ..entered
                }
            },
            Decision::Reject => FixedWindowState {
                turnstile: entered.turnstile.with_failure(),
                ..entered
            },
            Decision::Enqueue => {
                let leaving = entered.turnstile.evicted_by(n);
                FixedWindowState {
                    turnstile: entered.turnstile.enqueued(n).with_failed(
                        leaving,
                        same_hint(leaving.len(), Some(entered.retry_after(n, now))),
                    ),
                    ..entered
                }
            },
            _ => entered,
        }
    }

    /// The limiter after a call of `try_replenish` at `now`.
    pub open spec fn try_replenished(self, now: Instant) -> FixedWindowState {
        if self.auto_replenishment {
            self
        } else {
            self.replenished(now)
        }
    }

    /// The limiter after the wait with the ticket was cancelled.
    pub open spec fn cancelled(self, ticket: u64, now: Instant) -> FixedWindowState {
        FixedWindowState {
            turnstile: self.turnstile.without(ticket).settled(
                self.available == self.turnstile.capacity,
                now,
            ),
            ..self
        }
    }

    /// The limiter after the waiter with the ticket went away.
    pub open spec fn abandoned(self, ticket: u64) -> FixedWindowState {
        FixedWindowState { turnstile: self.turnstile.with_abandoned(ticket), ..self }
    }

    /// The limiter disposed at `now`: every waiter is sent away with a lease
    /// that was not acquired and says how much of the window is left.
    pub open spec fn disposed(self, now: Instant) -> FixedWindowState {
        FixedWindowState {
            turnstile: self.turnstile.shut().with_failed(
                self.turnstile.queue,
                same_hint(self.turnstile.queue.len(), Some(self.retry_after(0, now))),
            ).settled(self.available == self.turnstile.capacity, now),
            ..self
        }
    }

    /// The limiter after its completions were collected.
    pub open spec fn collected(self) -> FixedWindowState {
        FixedWindowState { turnstile: self.turnstile.collected(), ..self }
    }

    /// After a new window began, the permits of a window are either
    /// available or were granted to those who waited. Where nobody waited
    /// all of them are available.
    pub proof fn law_fresh_window(self, now: Instant)
        requires
            self.inv(),
            !self.turnstile.disposed,
        ensures
            self.replenished(now).available + self.turnstile.drain_spent(self.turnstile.capacity)
                == self.turnstile.capacity,
            self.turnstile.queue.len() == 0 ==> self.replenished(now).available
                == self.turnstile.capacity,
            self.replenished(now).window_start == now,
    {
        self.turnstile.law_drain(self.turnstile.capacity, false);
    }

    /// A request for all permits of a window is granted when all of them
    /// are there.
    pub proof fn law_full_grant(self, waiting: bool, cancelled: bool)
        requires
            self.inv(),
            !self.turnstile.disposed,
            self.available == self.turnstile.capacity,
        ensures
            self.decision(self.turnstile.capacity as u32, waiting, cancelled) == Decision::Grant,
    {
    }

    /// Where a timer begins the windows, `try_replenish` changes nothing.
    pub proof fn law_timer_replenishes(self, now: Instant)
        requires
            self.auto_replenishment,
        ensures
            self.try_replenished(now) == self,
    {
    }
}

/// A limiter that hands out `permit_limit` permits in each window of time.
pub struct FixedWindowRateLimiter {
    config: FixedWindowRateLimiterOptions,
    turnstile: Turnstile,
    available_permits: u32,
    window_start: Instant,
}

impl View for FixedWindowRateLimiter {
    type V = FixedWindowState;

    closed spec fn view(&self) -> FixedWindowState {
        FixedWindowState {
            turnstile: self.turnstile@,
            available: self.available_permits as nat,
            window: self.config.window,
            auto_replenishment: self.config.auto_replenishment,
            window_start: self.window_start,
        }
    }
}

impl FixedWindowRateLimiter {
    /// The options that the limiter was built from.
    pub closed spec fn options(&self) -> FixedWindowRateLimiterOptions {
        self.config
    }

    /// The limiter is sound: its state is as `FixedWindowState::inv` says
    /// and agrees with its options.
    pub closed spec fn well_formed(&self) -> bool {
        &&& self.turnstile.wf()
        &&& self@.inv()
        &&& self.config.valid()
        &&& self@.turnstile.capacity == self.config.permit_limit
        &&& self@.turnstile.queue_limit == self.config.queue_limit
        &&& self@.turnstile.order == self.config.queue_processing_order
    }

    pub proof fn lemma_well_formed(&self)
        requires
            self.wf(),
        ensures
            self@.inv(),
            self.options().valid(),
            self@.turnstile.capacity == self.options().permit_limit,
            self@.turnstile.queue_limit == self.options().queue_limit,
            self@.turnstile.order == self.options().queue_processing_order,
            self@.window == self.options().window,
            self@.auto_replenishment == self.options().auto_replenishment,
    {
    }

    /// A limiter at the beginning of its first window, idle since `now`.
    pub fn new(options: FixedWindowRateLimiterOptions, now: Instant) -> (r: Result<
        FixedWindowRateLimiter,
        RateLimitError,
    >)
        ensures
            match r {
                Ok(limiter) => {
                    &&& options.valid()
                    &&& limiter.wf()
                    &&& limiter.options() == options
                    &&& limiter@ == FixedWindowState::initial(options, now)
                },
                Err(e) => !options.valid() && e.is_invalid(options.fault()),
            },
    {
        if let Some(e) = options.check() {
            return Err(e);
        }
        let turnstile = Turnstile::new(
            options.permit_limit,
            options.queue_limit,
            options.queue_processing_order,
            now,
        );
        proof {
            turnstile.lemma_wf();
        }
        Ok(
            FixedWindowRateLimiter {
                config: options,
                turnstile,
                available_permits: options.permit_limit,
                window_start: now,
            },
        )
    }

    pub fn config(&self) -> (options: FixedWindowRateLimiterOptions)
        ensures
            options == self.options(),
    {
        self.config
    }

    /// How long a request for `permit_count` permits that is turned down at
    /// `now` should wait.
    pub fn calculate_retry_after(&self, permit_count: u32, now: Instant) -> (hint: Duration)
        requires
            self.wf(),
        ensures
            hint == self@.retry_after(permit_count, now),
    {
        if permit_count <= self.config.permit_limit {
            let elapsed = now.saturating_duration_since(self.window_start);
            self.config.window.saturating_sub(elapsed)
        } else {
            self.config.window
        }
    }

    /// Begins a new window at `now`: all permits are there again, and the
    /// queue is served. A disposed limiter stays as it is.
    pub fn replenish(&mut self, now: Instant)
        requires
            old(self).wf(),
        ensures
            final(self).wf(),
            final(self).options() == old(self).options(),
            old(self)@.turnstile.precedes(final(self)@.turnstile),
            final(self)@ == old(self)@.replenished(now),
    {
        proof {
            self.turnstile.lemma_wf();
        }
        if self.turnstile.is_disposed() {
            return ;
        }
        let fresh = self.config.permit_limit;
        proof {
            self.turnstile@.lemma_drain_leaves_busy(fresh as nat, false);
        }
        let spent = self.turnstile.drain(fresh, false);
        self.available_permits = fresh - spent;
        self.window_start = now;
        self.turnstile.settle(self.available_permits == fresh, now);
        proof {
            self.turnstile.lemma_wf();
        }
    }

    /// Begins a new window if no timer does and the window is over.
    fn check_window_expiration(&mut self, now: Instant)
        requires
            old(self).wf(),
        ensures
            final(self).wf(),
            final(self).options() == old(self).options(),
            old(self)@.turnstile.precedes(final(self)@.turnstile),
            final(self)@ == old(self)@.entered(0, now),
    {
        if !self.config.auto_replenishment {
            let elapsed = now.saturating_duration_since(self.window_start);
            if elapsed.as_nanos() >= self.config.window.as_nanos() {
                self.replenish(now);
            }
        }
    }

    /// The step that both forms of acquisition share.
    fn acquire(&mut self, n: u32, waiting: bool, cancelled: bool, now: Instant) -> (r: Result<
        Acquisition,
        RateLimitError,
    >)
        requires
            old(self).wf(),
        ensures
            final(self).wf(),
            final(self).options() == old(self).options(),
            old(self)@.turnstile.precedes(final(self)@.turnstile),
            final(self)@ == old(self)@.acquire(n, waiting, cancelled, now),
            answers_waiting(
                r,
                old(self)@.entered(n, now).decision(n, waiting, cancelled),
                n,
                old(self)@.turnstile.capacity,
                None,
                Some(old(self)@.entered(n, now).retry_after(n, now)),
                old(self)@.turnstile.next_ticket,
            ),
    {
        proof {
            self.turnstile.lemma_wf();
        }
        if n > self.config.permit_limit {
            return Err(RateLimitError::PermitCountExceeded(n, self.config.permit_limit));
        }
        self.check_window_expiration(now);
        proof {
            self.turnstile.lemma_wf();
        }
        let decision = self.turnstile.decide(
            n,
            self.available_permits,
            self.available_permits > 0,
            waiting,
            cancelled,
        );
        match decision {
            Decision::Exceeded => Err(
                RateLimitError::PermitCountExceeded(n, self.config.permit_limit),
            ),
            Decision::Disposed => Err(RateLimitError::Disposed),
            Decision::Cancelled => Err(RateLimitError::Cancelled),
            Decision::Grant => {
                self.available_permits = self.available_permits - n;
                self.turnstile.count_success();
                self.turnstile.settle(self.available_permits == self.config.permit_limit, now);
                proof {
                    self.turnstile.lemma_wf();
                }
                Ok(Acquisition::Ready(RateLimitLease::success()))
            },
            Decision::Reject => {
                let hint = self.calculate_retry_after(n, now);
                self.turnstile.count_failure();
                proof {
                    self.turnstile.lemma_wf();
                }
                Ok(Acquisition::Ready(RateLimitLease::failed(Some(hint))))
            },
            Decision::Enqueue => {
                let hint = self.calculate_retry_after(n, now);
                let (ticket, leaving) = self.turnstile.enqueue(n);
                self.turnstile.fail_each(&leaving, Some(hint));
                proof {
                    self.turnstile.lemma_wf();
                }
                Ok(Acquisition::Pending(ticket))
            },
        }
    }

    /// Releases a lease. The permits of a window do not come back, so the
    /// limiter stays as it is; only the cleanup leaves the lease.
    pub fn release(&mut self, lease: &mut RateLimitLease, now: Instant)
        requires
            old(self).wf(),
        ensures
            final(self).wf(),
            final(self).options() == old(self).options(),
            old(self)@.turnstile.precedes(final(self)@.turnstile),
            final(self)@ == old(self)@,
            final(lease).cleanup() is None,
            final(lease).acquired() == old(lease).acquired(),
            final(lease).metadata() == old(lease).metadata(),
    {
        let _ = lease.take_cleanup();
    }

    /// Cancels the wait with the ticket and says whether it was still
    /// waiting.
    pub fn cancel(&mut self, ticket: u64, now: Instant) -> (found: bool)
        requires
            old(self).wf(),
        ensures
            final(self).wf(),
            final(self).options() == old(self).options(),
            old(self)@.turnstile.precedes(final(self)@.turnstile),
            final(self)@ == old(self)@.cancelled(ticket, now),
            found == old(self)@.turnstile.holds(ticket),
    {
        let found = self.turnstile.cancel(ticket);
        self.turnstile.settle(self.available_permits == self.config.permit_limit, now);
        proof {
            self.turnstile.lemma_wf();
        }
        found
    }

    /// Notes that nobody waits for the outcome of the wait with the ticket
    /// any more, and says whether it was still waiting.
    pub fn abandon(&mut self, ticket: u64) -> (found: bool)
        requires
            old(self).wf(),
        ensures
            final(self).wf(),
            final(self).options() == old(self).options(),
            old(self)@.turnstile.precedes(final(self)@.turnstile),
            final(self)@ == old(self)@.abandoned(ticket),
            found == old(self)@.turnstile.holds(ticket),
    {
        let found = self.turnstile.abandon(ticket);
        proof {
            self.turnstile.lemma_wf();
        }
        found
    }

    /// Disposes the limiter. Every waiter is sent away with a lease that was
    /// not acquired, and from now on requests are errors.
    pub fn dispose(&mut self, now: Instant)
        requires
            old(self).wf(),
        ensures
            final(self).wf(),
            final(self).options() == old(self).options(),
            old(self)@.turnstile.precedes(final(self)@.turnstile),
            final(self)@ == old(self)@.disposed(now),
    {
        let hint = self.calculate_retry_after(0, now);
        let waiters = self.turnstile.shut();
        self.turnstile.fail_each(&waiters, Some(hint));
        self.turnstile.settle(self.available_permits == self.config.permit_limit, now);
        proof {
            self.turnstile.lemma_wf();
        }
    }

    /// Hands over the waits that ended since the last call, the earliest
    /// first.
    pub fn take_completions(&mut self) -> (completions: Vec<Completion>)
        requires
            old(self).wf(),
        ensures
            final(self).wf(),
            final(self).options() == old(self).options(),
            old(self)@.turnstile.precedes(final(self)@.turnstile),
            final(self)@ == old(self)@.collected(),
            completions@ == old(self)@.turnstile.completions,
    {
        let completions = self.turnstile.take_completions();
        proof {
            self.turnstile.lemma_wf();
        }
        completions
    }
}

impl RateLimiter for FixedWindowRateLimiter {
    open spec fn wf(&self) -> bool {
        self.well_formed()
    }

    open spec fn turnstile(&self) -> TurnstileState {
        self@.turnstile
    }

    fn attempt_acquire(&mut self, permit_count: u32, now: Instant) -> (r: Result<
        RateLimitLease,
        RateLimitError,
    >)
        ensures
            final(self).options() == old(self).options(),
            old(self)@.turnstile.precedes(final(self)@.turnstile),
            final(self)@ == old(self)@.acquire(permit_count, false, false, now),
            answers(
                r,
                old(self)@.entered(permit_count, now).decision(permit_count, false, false),
                permit_count,
                old(self)@.turnstile.capacity,
                None,
                Some(old(self)@.entered(permit_count, now).retry_after(permit_count, now)),
            ),
    {
        proof {
            self.turnstile.lemma_wf();
        }
        match self.acquire(permit_count, false, false, now) {
            Ok(Acquisition::Ready(lease)) => Ok(lease),
            // A request that is not ready to wait never joins the queue.
            Ok(Acquisition::Pending(_)) => Err(RateLimitError::QueueLimitExceeded),
            Err(e) => Err(e),
        }
    }

    fn acquire_async(&mut self, permit_count: u32, cancelled: bool, now: Instant) -> (r: Result<
        Acquisition,
        RateLimitError,
    >)
        ensures
            final(self).options() == old(self).options(),
            old(self)@.turnstile.precedes(final(self)@.turnstile),
            final(self)@ == old(self)@.acquire(permit_count, true, cancelled, now),
            answers_waiting(
                r,
                old(self)@.entered(permit_count, now).decision(permit_count, true, cancelled),
                permit_count,
                old(self)@.turnstile.capacity,
                None,
                Some(old(self)@.entered(permit_count, now).retry_after(permit_count, now)),
                old(self)@.turnstile.next_ticket,
            ),
    {
        proof {
            self.turnstile.lemma_wf();
            lemma_total_nothing(self@.turnstile.queue);
            let entered = self@.entered(permit_count, now);
            lemma_eviction_count(
                entered.turnstile.queue,
                permit_count as nat,
                entered.turnstile.queue_limit,
            );
        }
        self.acquire(permit_count, true, cancelled, now)
    }

    fn get_statistics(&self, now: Instant) -> (stats: RateLimiterStatistics)
        ensures
            stats.current_available_permits == self@.available,
    {
        self.turnstile.statistics(self.available_permits)
    }

    fn idle_duration(&self, now: Instant) -> (idle: Option<Duration>)
        ensures
            idle == idle_for(self@.turnstile.idle_since, now),
    {
        self.turnstile.idle_duration(now)
    }
}

impl ReplenishingRateLimiter for FixedWindowRateLimiter {
    open spec fn auto_replenishing(&self) -> bool {
        self@.auto_replenishment
    }

    fn is_auto_replenishing(&self) -> (auto: bool) {
        self.config.auto_replenishment
    }

    fn replenishment_period(&self) -> (period: Duration)
        ensures
            period == self@.window,
    {
        self.config.window
    }

    fn try_replenish(&mut self, now: Instant) -> (replenished: bool)
        ensures
            final(self).options() == old(self).options(),
            old(self)@.turnstile.precedes(final(self)@.turnstile),
            final(self)@ == old(self)@.try_replenished(now),
            replenished == !old(self)@.auto_replenishment,
    {
        if self.config.auto_replenishment {
            false
        } else {
            self.replenish(now);
            true
        }
    }
}

} // verus!
