//! Any one of the four limiters.

use vstd::prelude::*;
use crate::error::RateLimitError;
use crate::turnstile::{
    answers, answers_waiting, idle_for, returning, Acquisition, Completion, Decision,
    TurnstileState,
};
use crate::lease::{LeaseCleanup, RateLimitLease};
use crate::limiters::concurrency::{ConcurrencyLimiter, ConcurrencyLimiterOptions, ConcurrencyState};
use crate::limiters::fixed_window::{
    FixedWindowRateLimiter, FixedWindowRateLimiterOptions, FixedWindowState,
};
use crate::limiters::sliding_window::{
    SlidingWindowRateLimiter, SlidingWindowRateLimiterOptions, SlidingWindowState,
};
use crate::limiters::token_bucket::{
    TokenBucketRateLimiter, TokenBucketRateLimiterOptions, TokenBucketState,
};
use crate::statistics::RateLimiterStatistics;
use crate::time::{Duration, Instant};
use crate::traits::{RateLimiter, ReplenishingRateLimiter};

verus! {

/// How a limiter of one of the four kinds is set up.
#[derive(Clone, Copy, Debug)]
pub enum LimiterOptions {
    Concurrency(ConcurrencyLimiterOptions),
    FixedWindow(FixedWindowRateLimiterOptions),
    TokenBucket(TokenBucketRateLimiterOptions),
    SlidingWindow(SlidingWindowRateLimiterOptions),
}

impl LimiterOptions {
    /// Whether a limiter can be built from the options.
    pub open spec fn valid(self) -> bool {
        match self {
            LimiterOptions::Concurrency(options) => options.valid(),
            LimiterOptions::FixedWindow(options) => options.valid(),
            LimiterOptions::TokenBucket(options) => options.valid(),
            LimiterOptions::SlidingWindow(options) => options.valid(),
        }
    }
}

impl LimiterOptions {
    /// What is wrong with the options, where something is.
    pub open spec fn fault(self) -> Seq<char> {
        match self {
            LimiterOptions::Concurrency(options) => options.fault(),
            LimiterOptions::FixedWindow(options) => options.fault(),
            LimiterOptions::TokenBucket(options) => options.fault(),
            LimiterOptions::SlidingWindow(options) => options.fault(),
        }
    }

    /// Whether a timer replenishes a limiter that is built from the
    /// options. A concurrency limiter has none.
    pub open spec fn timed(self) -> bool {
        match self {
            LimiterOptions::Concurrency(options) => false,
            LimiterOptions::FixedWindow(options) => options.auto_replenishment,
            LimiterOptions::TokenBucket(options) => options.auto_replenishment,
            LimiterOptions::SlidingWindow(options) => options.auto_replenishment,
        }
    }

    /// The time between two replenishments of a limiter that is built from
    /// the options: none for a concurrency limiter, the window, the period,
    /// or one segment of the window.
    pub open spec fn period(self) -> nat {
        match self {
            LimiterOptions::Concurrency(options) => 0,
            LimiterOptions::FixedWindow(options) => options.window@,
            LimiterOptions::TokenBucket(options) => options.replenishment_period@,
            LimiterOptions::SlidingWindow(options) => if options.segments_per_window > 0 {
                options.window@ / (options.segments_per_window as nat)
            } else {
                0
            },
        }
    }

    pub fn auto_replenishment(&self) -> (auto: bool)
        ensures
            auto == self.timed(),
    {
        match self {
            LimiterOptions::Concurrency(_) => false,
            LimiterOptions::FixedWindow(options) => options.auto_replenishment,
            LimiterOptions::TokenBucket(options) => options.auto_replenishment,
            LimiterOptions::SlidingWindow(options) => options.auto_replenishment,
        }
    }

    pub fn replenishment_period(&self) -> (period: Duration)
        ensures
            period@ == self.period(),
    {
        match self {
            LimiterOptions::Concurrency(_) => Duration::zero(),
            LimiterOptions::FixedWindow(options) => options.window,
            LimiterOptions::TokenBucket(options) => options.replenishment_period,
            LimiterOptions::SlidingWindow(options) => {
                if options.segments_per_window > 0 {
                    options.window.divided_by(options.segments_per_window)
                } else {
                    Duration::zero()
                }
            },
        }
    }

    /// The error that building a limiter from the options gives, if any.
    pub fn check(&self) -> (r: Option<RateLimitError>)
        ensures
            match r {
                Some(e) => !self.valid() && e.is_invalid(self.fault()),
                None => self.valid(),
            },
    {
        match self {
            LimiterOptions::Concurrency(options) => options.check(),
            LimiterOptions::FixedWindow(options) => options.check(),
            LimiterOptions::TokenBucket(options) => options.check(),
            LimiterOptions::SlidingWindow(options) => options.check(),
        }
    }
}

/// The state of a limiter of one of the four kinds.
pub enum LimiterState {
    Concurrency(ConcurrencyState),
    FixedWindow(FixedWindowState),
    TokenBucket(TokenBucketState),
    SlidingWindow(SlidingWindowState),
}

impl LimiterState {
    /// A limiter as it is built from the options.
    pub open spec fn initial(options: LimiterOptions, now: Instant) -> LimiterState {
        match options {
            LimiterOptions::Concurrency(options) => LimiterState::Concurrency(
                ConcurrencyState::initial(options, now),
            ),
            LimiterOptions::FixedWindow(options) => LimiterState::FixedWindow(
                FixedWindowState::initial(options, now),
            ),
            LimiterOptions::TokenBucket(options) => LimiterState::TokenBucket(
                TokenBucketState::initial(options, now),
            ),
            LimiterOptions::SlidingWindow(options) => LimiterState::SlidingWindow(
                SlidingWindowState::initial(options, now),
            ),
        }
    }

    pub open spec fn inv(self) -> bool {
        match self {
            LimiterState::Concurrency(s) => s.inv(),
            LimiterState::FixedWindow(s) => s.inv(),
            LimiterState::TokenBucket(s) => s.inv(),
            LimiterState::SlidingWindow(s) => s.inv(),
        }
    }

    /// The part of the state that all limiters have.
    pub open spec fn turnstile(self) -> TurnstileState {
        match self {
            LimiterState::Concurrency(s) => s.turnstile,
            LimiterState::FixedWindow(s) => s.turnstile,
            LimiterState::TokenBucket(s) => s.turnstile,
            LimiterState::SlidingWindow(s) => s.turnstile,
        }
    }

    /// What is done with a request for `n` permits at `now`.
    #[verifier::opaque]
    pub open spec fn decision(self, n: u32, waiting: bool, cancelled: bool, now: Instant) -> Decision {
        match self {
            LimiterState::Concurrency(s) => s.decision(n, waiting, cancelled),
            LimiterState::FixedWindow(s) => s.entered(n, now).decision(n, waiting, cancelled),
            LimiterState::TokenBucket(s) => s.decision(n, waiting, cancelled),
            LimiterState::SlidingWindow(s) => s.entered(n, now).decision(n, waiting, cancelled),
        }
    }

    /// The retry hint on the lease of a request for `n` permits that is
    /// turned down at `now`.
    #[verifier::opaque]
    pub open spec fn hint(self, n: u32, now: Instant) -> Option<Duration> {
        match self {
            LimiterState::Concurrency(s) => None,
            LimiterState::FixedWindow(s) => Some(s.entered(n, now).retry_after(n, now)),
            LimiterState::TokenBucket(s) => Some(s.retry_after(n, s.turnstile.queued())),
            LimiterState::SlidingWindow(s) => Some(s.entered(n, now).retry_after(now)),
        }
    }

    /// The cleanup on the lease of a request for `n` permits that is
    /// granted: only the permits of a concurrency limiter come back.
    pub open spec fn cleanup_for(self, n: u32) -> Option<LeaseCleanup> {
        match self {
            LimiterState::Concurrency(s) => returning(n),
            _ => None,
        }
    }

    /// The limiter after a request for `n` permits at `now`.
    #[verifier::opaque]
    pub open spec fn acquire(
        self,
        n: u32,
        waiting: bool,
        cancelled: bool,
        now: Instant,
    ) -> LimiterState {
        match self {
            LimiterState::Concurrency(s) => LimiterState::Concurrency(
                s.acquire(n, waiting, cancelled, now),
            ),
            LimiterState::FixedWindow(s) => LimiterState::FixedWindow(
                s.acquire(n, waiting, cancelled, now),
            ),
            LimiterState::TokenBucket(s) => LimiterState::TokenBucket(
                s.acquire(n, waiting, cancelled, now),
            ),
            LimiterState::SlidingWindow(s) => LimiterState::SlidingWindow(
                s.acquire(n, waiting, cancelled, now),
            ),
        }
    }

    /// The limiter after the release of a lease with the given cleanup.
    #[verifier::opaque]
    pub open spec fn released(
        self,
        acquired: bool,
        cleanup: Option<LeaseCleanup>,
        now: Instant,
    ) -> LimiterState {
        match self {
            LimiterState::Concurrency(s) => LimiterState::Concurrency(
                s.released(acquired, cleanup, now),
            ),
            _ => self,
        }
    }

    /// The limiter after a replenishment at `now`. A concurrency limiter
    /// has none.
    pub open spec fn replenished(self, now: Instant) -> LimiterState {
        match self {
            LimiterState::Concurrency(s) => self,
            LimiterState::FixedWindow(s) => LimiterState::FixedWindow(s.replenished(now)),
            LimiterState::TokenBucket(s) => LimiterState::TokenBucket(s.replenished(now)),
            LimiterState::SlidingWindow(s) => LimiterState::SlidingWindow(s.replenished(now)),
        }
    }

    /// Whether a timer replenishes the limiter.
    pub open spec fn timed(self) -> bool {
        match self {
            LimiterState::Concurrency(s) => false,
            LimiterState::FixedWindow(s) => s.auto_replenishment,
            LimiterState::TokenBucket(s) => s.auto_replenishment,
            LimiterState::SlidingWindow(s) => s.auto_replenishment,
        }
    }

    /// The limiter after a call of `try_replenish` at `now`.
    pub open spec fn try_replenished(self, now: Instant) -> LimiterState {
        match self {
            LimiterState::Concurrency(s) => self,
            LimiterState::FixedWindow(s) => LimiterState::FixedWindow(s.try_replenished(now)),
            LimiterState::TokenBucket(s) => LimiterState::TokenBucket(s.try_replenished(now)),
            LimiterState::SlidingWindow(s) => LimiterState::SlidingWindow(s.try_replenished(now)),
        }
    }

    /// What a call of `try_replenish` at `now` answers.
    pub open spec fn try_replenish_answer(self, now: Instant) -> bool {
        match self {
            LimiterState::Concurrency(s) => false,
            LimiterState::FixedWindow(s) => !s.auto_replenishment,
            LimiterState::TokenBucket(s) => !s.auto_replenishment,
            LimiterState::SlidingWindow(s) => !s.auto_replenishment && s.replenishment_grants(
                now,
            ),
        }
    }

    /// The limiter after the wait with the ticket was cancelled.
    pub open spec fn cancelled(self, ticket: u64, now: Instant) -> LimiterState {
        match self {
            LimiterState::Concurrency(s) => LimiterState::Concurrency(s.cancelled(ticket, now)),
            LimiterState::FixedWindow(s) => LimiterState::FixedWindow(s.cancelled(ticket, now)),
            LimiterState::TokenBucket(s) => LimiterState::TokenBucket(s.cancelled(ticket, now)),
            LimiterState::SlidingWindow(s) => LimiterState::SlidingWindow(s.cancelled(ticket, now)),
        }
    }

    /// The limiter after the waiter with the ticket went away.
    pub open spec fn abandoned(self, ticket: u64) -> LimiterState {
        match self {
            LimiterState::Concurrency(s) => LimiterState::Concurrency(s.abandoned(ticket)),
            LimiterState::FixedWindow(s) => LimiterState::FixedWindow(s.abandoned(ticket)),
            LimiterState::TokenBucket(s) => LimiterState::TokenBucket(s.abandoned(ticket)),
            LimiterState::SlidingWindow(s) => LimiterState::SlidingWindow(s.abandoned(ticket)),
        }
    }

    /// The limiter disposed at `now`.
    pub open spec fn disposed(self, now: Instant) -> LimiterState {
        match self {
            LimiterState::Concurrency(s) => LimiterState::Concurrency(s.disposed(now)),
            LimiterState::FixedWindow(s) => LimiterState::FixedWindow(s.disposed(now)),
            LimiterState::TokenBucket(s) => LimiterState::TokenBucket(s.disposed(now)),
            LimiterState::SlidingWindow(s) => LimiterState::SlidingWindow(s.disposed(now)),
        }
    }

    /// The limiter after its completions were collected.
    pub open spec fn collected(self) -> LimiterState {
        match self {
            LimiterState::Concurrency(s) => LimiterState::Concurrency(s.collected()),
            LimiterState::FixedWindow(s) => LimiterState::FixedWindow(s.collected()),
            LimiterState::TokenBucket(s) => LimiterState::TokenBucket(s.collected()),
            LimiterState::SlidingWindow(s) => LimiterState::SlidingWindow(s.collected()),
        }
    }

    /// The permits that are there at `now`.
    pub open spec fn available_at(self, now: Instant) -> nat {
        match self {
            LimiterState::Concurrency(s) => s.available,
            LimiterState::FixedWindow(s) => s.available,
            LimiterState::TokenBucket(s) => s.available(),
            LimiterState::SlidingWindow(s) => s.available_at(now),
        }
    }

    /// Since when the limiter has been idle at `now`, if it is.
    pub open spec fn idle_since_at(self, now: Instant) -> Option<Instant> {
        match self {
            LimiterState::SlidingWindow(s) => s.idle_since_at(now),
            _ => self.turnstile().idle_since,
        }
    }
}

impl LimiterState {
    /// The waits that have not ended and those that ended and were not
    /// collected, taken together.
    pub open spec fn backlog(self) -> nat {
        self.turnstile().queue.len() + self.turnstile().completions.len()
    }

    /// What the decision on a request depends on. Whether the cancellation
    /// is set is of no account for a request that is not ready to wait.
    /// Such a request neither joins the queue nor ends as cancelled, and a
    /// request whose cancellation is set never joins the queue.
    pub proof fn lemma_decision(self, n: u32, waiting: bool, cancelled: bool, now: Instant)
        ensures
            !waiting ==> self.decision(n, waiting, cancelled, now) == self.decision(
                n,
                false,
                false,
                now,
            ) && self.acquire(n, waiting, cancelled, now) == self.acquire(n, false, false, now),
            !waiting ==> self.decision(n, waiting, cancelled, now) != Decision::Enqueue
                && self.decision(n, waiting, cancelled, now) != Decision::Cancelled,
            cancelled ==> self.decision(n, waiting, cancelled, now) != Decision::Enqueue,
            !cancelled ==> self.decision(n, waiting, cancelled, now) != Decision::Cancelled,
    {
        reveal(LimiterState::decision);
        reveal(LimiterState::acquire);
    }

    /// A release ends waits or leaves them: it adds nothing to the backlog.
    /// It keeps the limiter of its kind, and its counters do not fall.
    pub proof fn lemma_released(self, acquired: bool, cleanup: Option<LeaseCleanup>, now: Instant)
        requires
            self.inv(),
        ensures
            self.released(acquired, cleanup, now).backlog() <= self.backlog(),
            self.turnstile().precedes(self.released(acquired, cleanup, now).turnstile()),
            self.turnstile().keeps_waiters_of(self.released(acquired, cleanup, now).turnstile()),
    {
        reveal(LimiterState::released);
        let q = self.turnstile().queue;
        let after = self.released(acquired, cleanup, now).turnstile().queue;
        match self {
            LimiterState::Concurrency(s) => {
                match cleanup {
                    Some(LeaseCleanup::ReturnPermits(permits)) => {
                        if acquired && s.takes_back(permits) {
                            let back = s.available + permits as nat;
                            crate::queue::lemma_drain(q, back, s.turnstile.order);
                            assert forall|i: int| 0 <= i < after.len() implies q.contains(
                                #[trigger] after[i],
                            ) by {
                                match s.turnstile.order {
                                    crate::queue::QueueProcessingOrder::OldestFirst => {
                                        assert(after[i] == q[q.len() - after.len() + i]);
                                    },
                                    crate::queue::QueueProcessingOrder::NewestFirst => {
                                        assert(after[i] == q[i]);
                                    },
                                }
                            }
                        }
                    },
                    _ => {},
                }
            },
            _ => {},
        }
        assert forall|i: int| 0 <= i < q.len() implies q.contains(#[trigger] q[i]) by {}
    }
}

/// A limiter of one of the four kinds.
pub enum Limiter {
    Concurrency(ConcurrencyLimiter),
    FixedWindow(FixedWindowRateLimiter),
    TokenBucket(TokenBucketRateLimiter),
    SlidingWindow(SlidingWindowRateLimiter),
}

impl View for Limiter {
    type V = LimiterState;

    open spec fn view(&self) -> LimiterState {
        match self {
            Limiter::Concurrency(limiter) => LimiterState::Concurrency(limiter@),
            Limiter::FixedWindow(limiter) => LimiterState::FixedWindow(limiter@),
            Limiter::TokenBucket(limiter) => LimiterState::TokenBucket(limiter@),
            Limiter::SlidingWindow(limiter) => LimiterState::SlidingWindow(limiter@),
        }
    }
}

impl Limiter {
    /// The options that the limiter was built from.
    pub open spec fn options(&self) -> LimiterOptions {
        match self {
            Limiter::Concurrency(limiter) => LimiterOptions::Concurrency(limiter.options()),
            Limiter::FixedWindow(limiter) => LimiterOptions::FixedWindow(limiter.options()),
            Limiter::TokenBucket(limiter) => LimiterOptions::TokenBucket(limiter.options()),
            Limiter::SlidingWindow(limiter) => LimiterOptions::SlidingWindow(limiter.options()),
        }
    }

    pub proof fn lemma_well_formed(&self)
        requires
            self.wf(),
        ensures
            self@.inv(),
    {
        match self {
            Limiter::Concurrency(limiter) => limiter.lemma_well_formed(),
            Limiter::FixedWindow(limiter) => limiter.lemma_well_formed(),
            Limiter::TokenBucket(limiter) => limiter.lemma_well_formed(),
            Limiter::SlidingWindow(limiter) => limiter.lemma_well_formed(),
        }
    }

    /// A limiter of the kind of the options, idle since `now`.
    pub fn new(options: LimiterOptions, now: Instant) -> (r: Result<Limiter, RateLimitError>)
        ensures
            match r {
                Ok(limiter) => {
                    &&& options.valid()
                    &&& limiter.wf()
                    &&& limiter.options() == options
                    &&& limiter@ == LimiterState::initial(options, now)
                },
                Err(e) => !options.valid() && e.is_invalid(options.fault()),
            },
    {
        match options {
            LimiterOptions::Concurrency(options) => match ConcurrencyLimiter::new(options, now) {
                Ok(limiter) => Ok(Limiter::Concurrency(limiter)),
                Err(e) => Err(e),
            },
            LimiterOptions::FixedWindow(options) => match FixedWindowRateLimiter::new(
                options,
                now,
            ) {
                Ok(limiter) => Ok(Limiter::FixedWindow(limiter)),
                Err(e) => Err(e),
            },
            LimiterOptions::TokenBucket(options) => match TokenBucketRateLimiter::new(
                options,
                now,
            ) {
                Ok(limiter) => Ok(Limiter::TokenBucket(limiter)),
                Err(e) => Err(e),
            },
            LimiterOptions::SlidingWindow(options) => match SlidingWindowRateLimiter::new(
                options,
                now,
            ) {
                Ok(limiter) => Ok(Limiter::SlidingWindow(limiter)),
                Err(e) => Err(e),
            },
        }
    }

    /// How many of `n` granted permits come back when their lease is
    /// released: all for a concurrency limiter, none for the others.
    pub fn refund_for(&self, n: u32) -> (refund: u32)
        ensures
            returning(refund) == self@.cleanup_for(n),
            refund == 0 || refund == n,
    {
        match self {
            Limiter::Concurrency(_) => n,
            _ => 0,
        }
    }

    /// Releases a lease: its cleanup is taken out of it and carried out.
    pub fn release(&mut self, lease: &mut RateLimitLease, now: Instant)
        requires
            old(self).wf(),
        ensures
            final(self).wf(),
            final(self).options() == old(self).options(),
            old(self)@.turnstile().precedes(final(self)@.turnstile()),
            final(self)@ == old(self)@.released(old(lease).acquired(), old(lease).cleanup(), now),
            final(lease).cleanup() is None,
            final(lease).acquired() == old(lease).acquired(),
            final(lease).metadata() == old(lease).metadata(),
    {
        proof {
            reveal(LimiterState::released);
        }
        match self {
            Limiter::Concurrency(limiter) => limiter.release(lease, now),
            Limiter::FixedWindow(limiter) => limiter.release(lease, now),
            Limiter::TokenBucket(limiter) => limiter.release(lease, now),
            Limiter::SlidingWindow(limiter) => limiter.release(lease, now),
        }
    }

    /// Replenishes the limiter at `now`, as its timer does.
    pub fn replenish(&mut self, now: Instant)
        requires
            old(self).wf(),
        ensures
            final(self).wf(),
            final(self).options() == old(self).options(),
            old(self)@.turnstile().precedes(final(self)@.turnstile()),
            final(self)@ == old(self)@.replenished(now),
    {
        match self {
            Limiter::Concurrency(limiter) => {},
            Limiter::FixedWindow(limiter) => limiter.replenish(now),
            Limiter::TokenBucket(limiter) => limiter.replenish(now),
            Limiter::SlidingWindow(limiter) => {
                let _ = limiter.replenish(now);
            },
        }
    }

    /// Cancels the wait with the ticket and says whether it was still
    /// waiting.
    pub fn cancel(&mut self, ticket: u64, now: Instant) -> (found: bool)
        requires
            old(self).wf(),
        ensures
            final(self).wf(),
            final(self).options() == old(self).options(),
            old(self)@.turnstile().precedes(final(self)@.turnstile()),
            final(self)@ == old(self)@.cancelled(ticket, now),
            found == old(self)@.turnstile().holds(ticket),
    {
        match self {
            Limiter::Concurrency(limiter) => limiter.cancel(ticket, now),
            Limiter::FixedWindow(limiter) => limiter.cancel(ticket, now),
            Limiter::TokenBucket(limiter) => limiter.cancel(ticket, now),
            Limiter::SlidingWindow(limiter) => limiter.cancel(ticket, now),
        }
    }

    /// Notes that nobody waits for the outcome of the wait with the ticket
    /// any more, and says whether it was still waiting.
    pub fn abandon(&mut self, ticket: u64) -> (found: bool)
        requires
            old(self).wf(),
        ensures
            final(self).wf(),
            final(self).options() == old(self).options(),
            old(self)@.turnstile().precedes(final(self)@.turnstile()),
            final(self)@ == old(self)@.abandoned(ticket),
            found == old(self)@.turnstile().holds(ticket),
    {
        match self {
            Limiter::Concurrency(limiter) => limiter.abandon(ticket),
            Limiter::FixedWindow(limiter) => limiter.abandon(ticket),
            Limiter::TokenBucket(limiter) => limiter.abandon(ticket),
            Limiter::SlidingWindow(limiter) => limiter.abandon(ticket),
        }
    }

    /// Disposes the limiter.
    pub fn dispose(&mut self, now: Instant)
        requires
            old(self).wf(),
        ensures
            final(self).wf(),
            final(self).options() == old(self).options(),
            old(self)@.turnstile().precedes(final(self)@.turnstile()),
            final(self)@ == old(self)@.disposed(now),
    {
        match self {
            Limiter::Concurrency(limiter) => limiter.dispose(now),
            Limiter::FixedWindow(limiter) => limiter.dispose(now),
            Limiter::TokenBucket(limiter) => limiter.dispose(now),
            Limiter::SlidingWindow(limiter) => limiter.dispose(now),
        }
    }

    /// Hands over the waits that ended since the last call, the earliest
    /// first.
    pub fn take_completions(&mut self) -> (completions: Vec<Completion>)
        requires
            old(self).wf(),
        ensures
            final(self).wf(),
            final(self).options() == old(self).options(),
            old(self)@.turnstile().precedes(final(self)@.turnstile()),
            final(self)@ == old(self)@.collected(),
            completions@ == old(self)@.turnstile().completions,
    {
        match self {
            Limiter::Concurrency(limiter) => limiter.take_completions(),
            Limiter::FixedWindow(limiter) => limiter.take_completions(),
            Limiter::TokenBucket(limiter) => limiter.take_completions(),
            Limiter::SlidingWindow(limiter) => limiter.take_completions(),
        }
    }
}

impl RateLimiter for Limiter {
    open spec fn wf(&self) -> bool {
        match self {
            Limiter::Concurrency(limiter) => limiter.wf(),
            Limiter::FixedWindow(limiter) => limiter.wf(),
            Limiter::TokenBucket(limiter) => limiter.wf(),
            Limiter::SlidingWindow(limiter) => limiter.wf(),
        }
    }

    open spec fn turnstile(&self) -> TurnstileState {
        self@.turnstile()
    }

    fn attempt_acquire(&mut self, permit_count: u32, now: Instant) -> (r: Result<
        RateLimitLease,
        RateLimitError,
    >)
        ensures
            final(self).options() == old(self).options(),
            old(self)@.turnstile().precedes(final(self)@.turnstile()),
            final(self)@ == old(self)@.acquire(permit_count, false, false, now),
            answers(
                r,
                old(self)@.decision(permit_count, false, false, now),
                permit_count,
                old(self)@.turnstile().capacity,
                old(self)@.cleanup_for(permit_count),
                old(self)@.hint(permit_count, now),
            ),
    {
        proof {
            reveal(LimiterState::acquire);
            reveal(LimiterState::decision);
            reveal(LimiterState::hint);
        }
        match self {
            Limiter::Concurrency(limiter) => limiter.attempt_acquire(permit_count, now),
            Limiter::FixedWindow(limiter) => limiter.attempt_acquire(permit_count, now),
            Limiter::TokenBucket(limiter) => limiter.attempt_acquire(permit_count, now),
            Limiter::SlidingWindow(limiter) => limiter.attempt_acquire(permit_count, now),
        }
    }

    fn acquire_async(&mut self, permit_count: u32, cancelled: bool, now: Instant) -> (r: Result<
        Acquisition,
        RateLimitError,
    >)
        ensures
            final(self).options() == old(self).options(),
            old(self)@.turnstile().precedes(final(self)@.turnstile()),
            final(self)@ == old(self)@.acquire(permit_count, true, cancelled, now),
            answers_waiting(
                r,
                old(self)@.decision(permit_count, true, cancelled, now),
                permit_count,
                old(self)@.turnstile().capacity,
                old(self)@.cleanup_for(permit_count),
                old(self)@.hint(permit_count, now),
                old(self)@.turnstile().next_ticket,
            ),
    {
        proof {
            reveal(LimiterState::acquire);
            reveal(LimiterState::decision);
            reveal(LimiterState::hint);
        }
        match self {
            Limiter::Concurrency(limiter) => limiter.acquire_async(permit_count, cancelled, now),
            Limiter::FixedWindow(limiter) => limiter.acquire_async(permit_count, cancelled, now),
            Limiter::TokenBucket(limiter) => limiter.acquire_async(permit_count, cancelled, now),
            Limiter::SlidingWindow(limiter) => limiter.acquire_async(permit_count, cancelled, now),
        }
    }

    fn get_statistics(&self, now: Instant) -> (stats: RateLimiterStatistics)
        ensures
            stats.current_available_permits == self@.available_at(now),
    {
        match self {
            Limiter::Concurrency(limiter) => limiter.get_statistics(now),
            Limiter::FixedWindow(limiter) => limiter.get_statistics(now),
            Limiter::TokenBucket(limiter) => limiter.get_statistics(now),
            Limiter::SlidingWindow(limiter) => limiter.get_statistics(now),
        }
    }

    fn idle_duration(&self, now: Instant) -> (idle: Option<Duration>)
        ensures
            idle == idle_for(self@.idle_since_at(now), now),
    {
        match self {
            Limiter::Concurrency(limiter) => limiter.idle_duration(now),
            Limiter::FixedWindow(limiter) => limiter.idle_duration(now),
            Limiter::TokenBucket(limiter) => limiter.idle_duration(now),
            Limiter::SlidingWindow(limiter) => limiter.idle_duration(now),
        }
    }
}

impl ReplenishingRateLimiter for Limiter {
    open spec fn auto_replenishing(&self) -> bool {
        self@.timed()
    }

    fn is_auto_replenishing(&self) -> (auto: bool) {
        match self {
            Limiter::Concurrency(limiter) => false,
            Limiter::FixedWindow(limiter) => limiter.is_auto_replenishing(),
            Limiter::TokenBucket(limiter) => limiter.is_auto_replenishing(),
            Limiter::SlidingWindow(limiter) => limiter.is_auto_replenishing(),
        }
    }

    fn replenishment_period(&self) -> (period: Duration)
        ensures
            period@ == self.options().period(),
    {
        match self {
            Limiter::Concurrency(limiter) => Duration::zero(),
            Limiter::FixedWindow(limiter) => {
                proof {
                    limiter.lemma_well_formed();
                }
                limiter.replenishment_period()
            },
            Limiter::TokenBucket(limiter) => {
                proof {
                    limiter.lemma_well_formed();
                }
                limiter.replenishment_period()
            },
            Limiter::SlidingWindow(limiter) => {
                proof {
                    limiter.lemma_well_formed();
                }
                limiter.replenishment_period()
            },
        }
    }

    /// Replenishes the limiter by hand. A concurrency limiter has nothing
    /// to replenish: its answer is `false`.
    fn try_replenish(&mut self, now: Instant) -> (replenished: bool)
        ensures
            final(self).options() == old(self).options(),
            old(self)@.turnstile().precedes(final(self)@.turnstile()),
            final(self)@ == old(self)@.try_replenished(now),
            replenished == old(self)@.try_replenish_answer(now),
    {
        match self {
            Limiter::Concurrency(limiter) => false,
            Limiter::FixedWindow(limiter) => limiter.try_replenish(now),
            Limiter::TokenBucket(limiter) => limiter.try_replenish(now),
            Limiter::SlidingWindow(limiter) => limiter.try_replenish(now),
        }
    }
}

} // verus!
