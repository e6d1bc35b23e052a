//! The acquisition procedure that the limiters share.
//!
//! A turnstile holds what every limiter has: its capacity, the wait queue, the
//! moment since which it has been idle, whether it has been disposed, the
//! two lease counters, and the outcomes of waits that ended and were not yet
//! collected. What a limiter adds is its own way of counting the permits
//! that are available.

use vstd::prelude::*;
use crate::error::RateLimitError;
use crate::lease::{LeaseCleanup, RateLimitLease};
use crate::queue::{
    can_enqueue, drain_model, eviction_count, lemma_drain, lemma_total_subrange, position_of,
    queue_inv, total_permits, QueueProcessingOrder, WaitQueue, Waiter,
};
use crate::statistics::{bump, bumped, bumped_by, RateLimiterStatistics};
use crate::time::{Duration, Instant};

verus! {

/// How a wait ended.
#[derive(Debug, Clone, Copy, PartialEq, Eq)]
pub enum WaitOutcome {
    /// The permits were granted. Releasing the lease hands `refund` of them
    /// back.
    Granted { refund: u32 },
    /// The wait ended without permits, with the retry hint if there is one.
    Failed { retry_after: Option<Duration> },
}

/// The end of one wait.
#[derive(Debug, Clone, Copy, PartialEq, Eq)]
pub struct Completion {
    /// The ticket that the waiter was given.
    pub ticket: u64,
    /// The permits that it asked for.
    pub permits: u32,
    pub outcome: WaitOutcome,
}

/// The cleanup of a lease for `permits` permits that are handed back on
/// release: none for no permits.
pub open spec fn returning(permits: u32) -> Option<LeaseCleanup> {
    if permits > 0 {
        Some(LeaseCleanup::ReturnPermits(permits))
    } else {
        None
    }
}

impl Completion {
    /// Whether `lease` is the lease that tells of this completion.
    pub open spec fn told_by(self, lease: RateLimitLease) -> bool {
        match self.outcome {
            WaitOutcome::Granted { refund } => lease.is_success_with(returning(refund)),
            WaitOutcome::Failed { retry_after } => lease.is_failure_with(retry_after),
        }
    }

    /// Whether the completion is a grant.
    pub open spec fn granted(self) -> bool {
        self.outcome is Granted
    }

    /// The cleanup of the lease that tells of this completion.
    pub open spec fn cleanup(self) -> Option<LeaseCleanup> {
        match self.outcome {
            WaitOutcome::Granted { refund } => returning(refund),
            WaitOutcome::Failed { retry_after } => None,
        }
    }

    /// The lease to hand to whoever waited.
    pub fn into_lease(self) -> (lease: RateLimitLease)
        ensures
            self.told_by(lease),
    {
        match self.outcome {
            WaitOutcome::Granted { refund } => {
                if refund > 0 {
                    RateLimitLease::success_with_cleanup(LeaseCleanup::ReturnPermits(refund))
                } else {
                    RateLimitLease::success()
                }
            },
            WaitOutcome::Failed { retry_after } => RateLimitLease::failed(retry_after),
        }
    }
}

/// The completions of waiters that are sent away, each with its hint.
pub open spec fn failures(waiters: Seq<Waiter>, hints: Seq<Option<Duration>>) -> Seq<Completion> {
    Seq::new(
        waiters.len(),
        |i: int|
            Completion {
                ticket: waiters[i].ticket,
                permits: waiters[i].permits,
                outcome: WaitOutcome::Failed { retry_after: hints[i] },
            },
    )
}

/// The same hint for each of `count` waiters.
pub open spec fn same_hint(count: nat, hint: Option<Duration>) -> Seq<Option<Duration>> {
    Seq::new(count, |i: int| hint)
}

/// The completions of waiters that are granted their permits.
pub open spec fn grants(waiters: Seq<Waiter>, returnable: bool) -> Seq<Completion> {
    Seq::new(
        waiters.len(),
        |i: int|
            Completion {
                ticket: waiters[i].ticket,
                permits: waiters[i].permits,
                outcome: WaitOutcome::Granted {
                    refund: if returnable {
                        waiters[i].permits
                    } else {
                        0
                    },
                },
            },
    )
}

/// What is done with a request.
#[derive(Debug, Clone, Copy, PartialEq, Eq, Structural)]
pub enum Decision {
    /// It asks for more than the capacity: an error.
    Exceeded,
    /// The limiter is disposed: an error.
    Disposed,
    /// It gets its permits now.
    Grant,
    /// It is turned down with a lease that was not acquired.
    Reject,
    /// It would have to wait and was cancelled before it began to: an error.
    Cancelled,
    /// It joins the queue.
    Enqueue,
}

/// What a waiting acquisition comes to at once.
#[derive(Debug)]
pub enum Acquisition {
    /// The request was decided; here is its lease.
    Ready(RateLimitLease),
    /// The request waits in the queue under this ticket.
    Pending(u64),
}

/// Whether `r` is the answer that the decision `d` on a request for `n`
/// permits calls for: `cleanup` is what a granted lease carries, `hint` what
/// a lease that was turned down carries.
pub open spec fn answers(
    r: Result<RateLimitLease, RateLimitError>,
    d: Decision,
    n: u32,
    capacity: nat,
    cleanup: Option<LeaseCleanup>,
    hint: Option<Duration>,
) -> bool {
    match d {
        Decision::Exceeded => r == Err::<RateLimitLease, RateLimitError>(
            RateLimitError::PermitCountExceeded(n, capacity as u32),
        ),
        Decision::Disposed => r == Err::<RateLimitLease, RateLimitError>(
            RateLimitError::Disposed,
        ),
        Decision::Grant => r matches Ok(lease) && lease.is_success_with(cleanup),
        Decision::Reject => r matches Ok(lease) && lease.is_failure_with(hint),
        Decision::Cancelled => false,
        Decision::Enqueue => false,
    }
}

/// The same for the waiting form, where `ticket` is the ticket that a
/// request gets when it joins the queue.
pub open spec fn answers_waiting(
    r: Result<Acquisition, RateLimitError>,
    d: Decision,
    n: u32,
    capacity: nat,
    cleanup: Option<LeaseCleanup>,
    hint: Option<Duration>,
    ticket: nat,
) -> bool {
    match d {
        Decision::Exceeded => r == Err::<Acquisition, RateLimitError>(
            RateLimitError::PermitCountExceeded(n, capacity as u32),
        ),
        Decision::Disposed => r == Err::<Acquisition, RateLimitError>(RateLimitError::Disposed),
        Decision::Grant => r matches Ok(Acquisition::Ready(lease)) && lease.is_success_with(
            cleanup,
        ),
        Decision::Reject => r matches Ok(Acquisition::Ready(lease)) && lease.is_failure_with(hint),
        Decision::Cancelled => r == Err::<Acquisition, RateLimitError>(RateLimitError::Cancelled),
        Decision::Enqueue => r matches Ok(Acquisition::Pending(t)) && t == ticket,
    }
}

/// The state of a turnstile.
pub struct TurnstileState {
    /// The most permits that one request may ask for.
    pub capacity: nat,
    /// The most permits that the waiters may ask for together.
    pub queue_limit: nat,
    pub order: QueueProcessingOrder,
    /// The waiters in arrival order, the oldest first.
    pub queue: Seq<Waiter>,
    /// The ticket that the next waiter gets.
    pub next_ticket: nat,
    /// Since when the limiter has been idle, while it is.
    pub idle_since: Option<Instant>,
    pub disposed: bool,
    /// Leases handed out as acquired.
    pub successful: nat,
    /// Leases handed out as not acquired.
    pub failed: nat,
    /// The waits that ended and were not collected yet, the earliest first.
    pub completions: Seq<Completion>,
}

impl TurnstileState {
    /// A turnstile that nothing has passed yet.
    pub open spec fn initial(
        capacity: nat,
        queue_limit: nat,
        order: QueueProcessingOrder,
        now: Instant,
    ) -> TurnstileState {
        TurnstileState {
            capacity,
            queue_limit,
            order,
            queue: Seq::empty(),
            next_ticket: 0,
            idle_since: Some(now),
            disposed: false,
            successful: 0,
            failed: 0,
            completions: Seq::empty(),
        }
    }

    /// What holds of every turnstile.
    pub open spec fn inv(self) -> bool {
        &&& 1 <= self.capacity <= u32::MAX
        &&& queue_inv(self.queue, self.queue_limit, self.next_ticket)
        &&& forall|i: int| 0 <= i < self.queue.len() ==> (#[trigger] self.queue[i]).permits
            <= self.capacity
        &&& self.disposed ==> self.queue.len() == 0
        &&& self.successful <= u64::MAX
        &&& self.failed <= u64::MAX
    }

    /// The permits that the waiters ask for together.
    pub open spec fn queued(self) -> nat {
        total_permits(self.queue)
    }

    /// Whether a request for `n` permits gets them at once. A request for
    /// no permits asks whether anything is available at all. Any other
    /// request needs its permits to be available and, where the oldest is
    /// served first, nobody to be waiting.
    pub open spec fn passes(self, n: u32, available: nat, any_available: bool) -> bool {
        if n == 0 {
            any_available
        } else {
            available >= n && (self.queue.len() == 0 || self.order
                == QueueProcessingOrder::NewestFirst)
        }
    }

    /// What is done with a request for `n` permits.
    pub open spec fn decision(
        self,
        n: u32,
        available: nat,
        any_available: bool,
        waiting: bool,
        cancelled: bool,
    ) -> Decision {
        if n > self.capacity {
            Decision::Exceeded
        } else if self.disposed {
            Decision::Disposed
        } else if self.passes(n, available, any_available) {
            Decision::Grant
        } else if !waiting || !can_enqueue(
            self.queue,
            n as nat,
            self.queue_limit,
            self.order,
            self.next_ticket,
        ) {
            Decision::Reject
        } else if cancelled {
            Decision::Cancelled
        } else {
            Decision::Enqueue
        }
    }

    /// One more lease handed out as acquired.
    pub open spec fn with_success(self) -> TurnstileState {
        TurnstileState { successful: bumped(self.successful), ..self }
    }

    /// One more lease handed out as not acquired.
    pub open spec fn with_failure(self) -> TurnstileState {
        TurnstileState { failed: bumped(self.failed), ..self }
    }

    /// The turnstile after a step that left the limiter full or not: idle from
    /// `now` on if it is full with nobody waiting and was not idle before,
    /// busy if it is not.
    pub open spec fn settled(self, full: bool, now: Instant) -> TurnstileState {
        TurnstileState {
            idle_since: if full && self.queue.len() == 0 {
                match self.idle_since {
                    Some(since) => Some(since),
                    None => Some(now),
                }
            } else {
                None
            },
            ..self
        }
    }

    /// The turnstile idle since `since`, unless it has been idle for longer.
    pub open spec fn idle_from(self, since: Instant) -> TurnstileState {
        TurnstileState {
            idle_since: match self.idle_since {
                Some(earlier) => Some(earlier),
                None => Some(since),
            },
            ..self
        }
    }

    /// The waiters that have to leave for a newcomer that asks for `n`
    /// permits, the oldest first.
    pub open spec fn evicted_by(self, n: u32) -> Seq<Waiter> {
        self.queue.subrange(0, eviction_count(self.queue, n as nat, self.queue_limit) as int)
    }

    /// The turnstile with a newcomer that asks for `n` permits at the back of the
    /// queue, in place of those that had to leave.
    pub open spec fn enqueued(self, n: u32) -> TurnstileState {
        TurnstileState {
            queue: self.queue.subrange(
                eviction_count(self.queue, n as nat, self.queue_limit) as int,
                self.queue.len() as int,
            ).push(Waiter { ticket: self.next_ticket as u64, permits: n, abandoned: false }),
            next_ticket: self.next_ticket + 1,
            ..self
        }
    }

    /// The turnstile after the given waiters, which are no longer in the queue,
    /// were sent away with the given hints.
    pub open spec fn with_failed(
        self,
        waiters: Seq<Waiter>,
        hints: Seq<Option<Duration>>,
    ) -> TurnstileState {
        TurnstileState {
            failed: bumped_by(self.failed, waiters.len()),
            completions: self.completions + failures(waiters, hints),
            ..self
        }
    }

    /// The permits that a drain with `available` permits grants.
    pub open spec fn drain_spent(self, available: nat) -> nat {
        drain_model(self.queue, available, self.order).spent
    }

    /// The turnstile after a drain with `available` permits.
    pub open spec fn drained(self, available: nat, returnable: bool) -> TurnstileState {
        let d = drain_model(self.queue, available, self.order);
        TurnstileState {
            queue: d.rest,
            successful: bumped_by(self.successful, d.granted.len()),
            completions: self.completions + grants(d.granted, returnable),
            ..self
        }
    }

    /// Whether a waiter with the ticket is in the queue.
    pub open spec fn holds(self, ticket: u64) -> bool {
        position_of(self.queue, ticket) < self.queue.len()
    }

    /// The turnstile without the waiter with the ticket.
    pub open spec fn without(self, ticket: u64) -> TurnstileState {
        if self.holds(ticket) {
            TurnstileState { queue: self.queue.remove(position_of(self.queue, ticket) as int), ..self }
        } else {
            self
        }
    }

    /// The turnstile with the waiter with the ticket marked as abandoned.
    pub open spec fn with_abandoned(self, ticket: u64) -> TurnstileState {
        if self.holds(ticket) {
            let at = position_of(self.queue, ticket) as int;
            TurnstileState {
                queue: self.queue.update(at, Waiter { abandoned: true, ..self.queue[at] }),
                ..self
            }
        } else {
            self
        }
    }

    /// The turnstile disposed, its queue empty.
    pub open spec fn shut(self) -> TurnstileState {
        TurnstileState { disposed: true, queue: Seq::empty(), ..self }
    }

    /// The turnstile after its completions were collected.
    pub open spec fn collected(self) -> TurnstileState {
        TurnstileState { completions: Seq::empty(), ..self }
    }

    /// Whether everybody who waits in `later` waits in `self`.
    pub open spec fn keeps_waiters_of(self, later: TurnstileState) -> bool {
        &&& later.queue.len() <= self.queue.len()
        &&& forall|i: int|
            0 <= i < later.queue.len() ==> self.queue.contains(#[trigger] later.queue[i])
    }

    /// Whether `later` can follow `self` in the life of one turnstile: the
    /// configuration stays, the counters do not fall, tickets are not
    /// handed out twice, and a disposed turnstile stays disposed.
    pub open spec fn precedes(self, later: TurnstileState) -> bool {
        &&& later.capacity == self.capacity
        &&& later.queue_limit == self.queue_limit
        &&& later.order == self.order
        &&& later.successful >= self.successful
        &&& later.failed >= self.failed
        &&& later.next_ticket >= self.next_ticket
        &&& self.disposed ==> later.disposed
    }
}

impl TurnstileState {
    /// A request for no permits is granted exactly if something is
    /// available, whoever waits.
    pub proof fn law_zero_request(self, available: nat, any: bool, waiting: bool, cancelled: bool)
        requires
            !self.disposed,
        ensures
            self.decision(0, available, any, waiting, cancelled) == (if any {
                Decision::Grant
            } else {
                Decision::Reject
            }),
    {
    }

    /// A request for one permit more than the capacity is an error.
    pub proof fn law_over_capacity(self, available: nat, any: bool, waiting: bool, cancelled: bool)
        requires
            self.inv(),
        ensures
            self.decision((self.capacity + 1) as u32, available, any, waiting, cancelled)
                == Decision::Exceeded || self.capacity == u32::MAX,
            forall|n: u32|
                n > self.capacity ==> #[trigger] self.decision(
                    n,
                    available,
                    any,
                    waiting,
                    cancelled,
                ) == Decision::Exceeded,
    {
    }

    /// A disposed turnstile grants nothing and queues nothing: every request is
    /// an error.
    pub proof fn law_disposed(
        self,
        n: u32,
        available: nat,
        any: bool,
        waiting: bool,
        cancelled: bool,
    )
        requires
            self.disposed,
        ensures
            self.decision(n, available, any, waiting, cancelled) == (if n > self.capacity {
                Decision::Exceeded
            } else {
                Decision::Disposed
            }),
    {
    }

    /// Disposing sends every waiter away: the queue is empty, and each of
    /// the waiters has its completion, in the order in which they came.
    pub proof fn law_disposing(self, hints: Seq<Option<Duration>>)
        ensures
            self.shut().with_failed(self.queue, hints).disposed,
            self.shut().with_failed(self.queue, hints).queue.len() == 0,
            self.shut().with_failed(self.queue, hints).completions == self.completions + failures(
                self.queue,
                hints,
            ),
            forall|i: int|
                0 <= i < self.queue.len() ==> (#[trigger] failures(self.queue, hints)[i]).ticket
                    == self.queue[i].ticket && failures(self.queue, hints)[i].outcome
                    == (WaitOutcome::Failed { retry_after: hints[i] }),
    {
    }

    /// With a queue limit of zero nobody ever waits: the queue is empty, and
    /// a request that cannot be granted at once is turned down.
    pub proof fn law_no_queue(
        self,
        n: u32,
        available: nat,
        any: bool,
        waiting: bool,
        cancelled: bool,
    )
        requires
            self.inv(),
            self.queue_limit == 0,
        ensures
            self.queue.len() == 0,
            self.decision(n, available, any, waiting, cancelled) != Decision::Enqueue,
            self.decision(n, available, any, waiting, cancelled) != Decision::Cancelled,
    {
        crate::queue::lemma_total_nothing(self.queue);
    }

    /// Whoever is served next under `OldestFirst` came before everybody
    /// else in the queue, and under `NewestFirst` after everybody else.
    pub proof fn law_service_order(self)
        requires
            self.inv(),
            self.queue.len() > 0,
        ensures
            forall|i: int|
                0 <= i < self.queue.len() ==> (match self.order {
                    QueueProcessingOrder::OldestFirst => crate::queue::head_of(
                        self.queue,
                        self.order,
                    ).ticket <= (#[trigger] self.queue[i]).ticket,
                    QueueProcessingOrder::NewestFirst => crate::queue::head_of(
                        self.queue,
                        self.order,
                    ).ticket >= self.queue[i].ticket,
                }),
    {
    }

    /// The counters and the queued permits fit the numbers that report
    /// them.
    pub proof fn lemma_counts_fit(self)
        requires
            self.inv(),
        ensures
            self.queued() <= u32::MAX,
            self.successful <= u64::MAX,
            self.failed <= u64::MAX,
    {
    }

    /// A drain keeps what holds of every turnstile.
    pub proof fn lemma_drained_inv(self, available: nat, returnable: bool)
        requires
            self.inv(),
        ensures
            self.drained(available, returnable).inv(),
    {
        lemma_drain(self.queue, available, self.order);
        let d = drain_model(self.queue, available, self.order);
        let q = self.queue;
        let from = match self.order {
            QueueProcessingOrder::OldestFirst => q.len() - d.rest.len(),
            QueueProcessingOrder::NewestFirst => 0,
        };
        assert forall|i: int| 0 <= i < d.rest.len() implies #[trigger] d.rest[i] == q[from + i] by {}
        assert forall|i: int, j: int| 0 <= i < j < d.rest.len() implies d.rest[i].ticket
            < d.rest[j].ticket by {
            assert(d.rest[i] == q[from + i] && d.rest[j] == q[from + j]);
        }
    }

    /// Where a drain leaves somebody in the queue, less than the capacity
    /// is left.
    pub proof fn lemma_drain_leaves_busy(self, available: nat, returnable: bool)
        requires
            self.inv(),
        ensures
            self.drained(available, returnable).queue.len() > 0 ==> available - self.drain_spent(
                available,
            ) < self.capacity,
    {
        lemma_drain(self.queue, available, self.order);
        let d = drain_model(self.queue, available, self.order);
        if d.rest.len() > 0 {
            match self.order {
                QueueProcessingOrder::OldestFirst => {
                    assert(d.rest[0] == self.queue[self.queue.len() - d.rest.len()]);
                },
                QueueProcessingOrder::NewestFirst => {
                    assert(d.rest[d.rest.len() - 1] == self.queue[d.rest.len() - 1]);
                },
            }
        }
    }

    /// A drain never grants more than is available, and what it leaves in
    /// the queue cannot be served with what is left.
    pub proof fn law_drain(self, available: nat, returnable: bool)
        ensures
            self.drain_spent(available) <= available,
            self.drained(available, returnable).drained(
                (available - self.drain_spent(available)) as nat,
                returnable,
            ).queue == self.drained(available, returnable).queue,
            self.drained(available, returnable).drain_spent(
                (available - self.drain_spent(available)) as nat,
            ) == 0,
    {
        lemma_drain(self.queue, available, self.order);
        crate::queue::lemma_drain_settles(self.queue, available, self.order);
    }
}

/// The shared part of a limiter.
pub struct Turnstile {
    capacity: u32,
    queue: WaitQueue,
    idle_since: Option<Instant>,
    disposed: bool,
    successful: u64,
    failed: u64,
    completions: Vec<Completion>,
}

impl View for Turnstile {
    type V = TurnstileState;

    closed spec fn view(&self) -> TurnstileState {
        TurnstileState {
            capacity: self.capacity as nat,
            queue_limit: self.queue.limit(),
            order: self.queue.order(),
            queue: self.queue@,
            next_ticket: self.queue.next_ticket(),
            idle_since: self.idle_since,
            disposed: self.disposed,
            successful: self.successful as nat,
            failed: self.failed as nat,
            completions: self.completions@,
        }
    }
}

impl Turnstile {
    /// The turnstile is sound, and its state is as `TurnstileState::inv` says.
    pub closed spec fn wf(&self) -> bool {
        &&& self.queue.wf()
        &&& self@.inv()
    }

    pub proof fn lemma_wf(&self)
        requires
            self.wf(),
        ensures
            self@.inv(),
    {
    }

    pub fn new(capacity: u32, queue_limit: u32, order: QueueProcessingOrder, now: Instant) -> (turnstile:
        Turnstile)
        requires
            capacity >= 1,
        ensures
            turnstile.wf(),
            turnstile@ == TurnstileState::initial(capacity as nat, queue_limit as nat, order, now),
    {
        let queue = WaitQueue::new(queue_limit, order);
        proof {
            queue.lemma_wf();
        }
        Turnstile {
            capacity,
            queue,
            idle_since: Some(now),
            disposed: false,
            successful: 0,
            failed: 0,
            completions: Vec::new(),
        }
    }

    pub fn capacity(&self) -> (n: u32)
        ensures
            n == self@.capacity,
    {
        self.capacity
    }

    pub fn is_disposed(&self) -> (b: bool)
        ensures
            b == self@.disposed,
    {
        self.disposed
    }

    pub fn queue_is_empty(&self) -> (b: bool)
        ensures
            b == (self@.queue.len() == 0),
    {
        self.queue.is_empty()
    }

    pub fn queued_permits(&self) -> (n: u32)
        requires
            self.wf(),
        ensures
            n == self@.queued(),
    {
        self.queue.queued_permits()
    }

    pub fn processing_order(&self) -> (order: QueueProcessingOrder)
        ensures
            order == self@.order,
    {
        self.queue.processing_order()
    }

    pub fn queue_limit(&self) -> (n: u32)
        ensures
            n == self@.queue_limit,
    {
        self.queue.queue_limit()
    }

    /// What is done with a request for `n` permits, `available` of which
    /// are there.
    pub fn decide(
        &self,
        n: u32,
        available: u32,
        any_available: bool,
        waiting: bool,
        cancelled: bool,
    ) -> (d: Decision)
        requires
            self.wf(),
        ensures
            d == self@.decision(n, available as nat, any_available, waiting, cancelled),
    {
        if n > self.capacity {
            Decision::Exceeded
        } else if self.disposed {
            Decision::Disposed
        } else if n == 0 {
            if any_available {
                Decision::Grant
            } else {
                Decision::Reject
            }
        } else if available >= n && (self.queue.is_empty() || self.queue.processing_order()
            == QueueProcessingOrder::NewestFirst) {
            Decision::Grant
        } else if !waiting || !self.queue.accepts(n) {
            Decision::Reject
        } else if cancelled {
            Decision::Cancelled
        } else {
            Decision::Enqueue
        }
    }

    pub fn count_success(&mut self)
        requires
            old(self).wf(),
        ensures
            final(self).wf(),
            final(self)@ == old(self)@.with_success(),
    {
        self.successful = bump(self.successful);
    }

    pub fn count_failure(&mut self)
        requires
            old(self).wf(),
        ensures
            final(self).wf(),
            final(self)@ == old(self)@.with_failure(),
    {
        self.failed = bump(self.failed);
    }

    /// Notes whether the limiter is idle after a step at `now`.
    pub fn settle(&mut self, full: bool, now: Instant)
        requires
            old(self).wf(),
        ensures
            final(self).wf(),
            final(self)@ == old(self)@.settled(full, now),
    {
        if full && self.queue.is_empty() {
            if self.idle_since.is_none() {
                self.idle_since = Some(now);
            }
        } else {
            self.idle_since = None;
        }
    }

    /// Marks the limiter as idle since `since`, if it is not idle yet.
    pub fn idle_from(&mut self, since: Instant)
        requires
            old(self).wf(),
        ensures
            final(self).wf(),
            final(self)@ == old(self)@.idle_from(since),
    {
        if self.idle_since.is_none() {
            self.idle_since = Some(since);
        }
    }

    /// Queues a request for `n` permits and returns its ticket and the
    /// waiters that had to leave for it, the oldest first. They are not sent
    /// away yet: that is `fail_waiters`.
    pub fn enqueue(&mut self, n: u32) -> (r: (u64, Vec<Waiter>))
        requires
            old(self).wf(),
            n <= old(self)@.capacity,
            !old(self)@.disposed,
            can_enqueue(
                old(self)@.queue,
                n as nat,
                old(self)@.queue_limit,
                old(self)@.order,
                old(self)@.next_ticket,
            ),
        ensures
            final(self).wf(),
            final(self)@ == old(self)@.enqueued(n),
            r.0 == old(self)@.next_ticket,
            r.1@ == old(self)@.evicted_by(n),
    {
        let r = self.queue.enqueue(n);
        proof {
            self.queue.lemma_wf();
            let k = eviction_count(old(self)@.queue, n as nat, old(self)@.queue_limit) as int;
            assert forall|i: int| 0 <= i < self@.queue.len() implies (
            #[trigger] self@.queue[i]).permits <= self@.capacity by {
                if i < self@.queue.len() - 1 {
                    assert(self@.queue[i] == old(self)@.queue[i + k]);
                }
            }
        }
        r
    }

    /// Sends the given waiters away, each with its hint. They count as
    /// leases that were not acquired.
    pub fn fail_waiters(&mut self, waiters: &Vec<Waiter>, hints: &Vec<Option<Duration>>)
        requires
            old(self).wf(),
            waiters.len() == hints.len(),
        ensures
            final(self).wf(),
            final(self)@ == old(self)@.with_failed(waiters@, hints@),
    {
        let ghost all = failures(waiters@, hints@);
        let mut i: usize = 0;
        assert(self.completions@ == old(self).completions@ + all.subrange(0, 0));
        while i < waiters.len()
            invariant
                i <= waiters.len(),
                waiters.len() == hints.len(),
                all == failures(waiters@, hints@),
                self.queue == old(self).queue,
                self.capacity == old(self).capacity,
                self.idle_since == old(self).idle_since,
                self.disposed == old(self).disposed,
                self.successful == old(self).successful,
                self.failed == bumped_by(old(self).failed as nat, i as nat),
                self.completions@ == old(self).completions@ + all.subrange(0, i as int),
            decreases waiters.len() - i,
        {
            let waiter = waiters[i];
            let completion = Completion {
                ticket: waiter.ticket,
                permits: waiter.permits,
                outcome: WaitOutcome::Failed { retry_after: hints[i] },
            };
            assert(completion == all[i as int]);
            self.completions.push(completion);
            self.failed = bump(self.failed);
            i += 1;
            assert(self.completions@ == old(self).completions@ + all.subrange(0, i as int));
        }
        assert(all.subrange(0, i as int) == all);
    }

    /// Sends the given waiters away with one hint for all.
    pub fn fail_each(&mut self, waiters: &Vec<Waiter>, hint: Option<Duration>)
        requires
            old(self).wf(),
        ensures
            final(self).wf(),
            final(self)@ == old(self)@.with_failed(
                waiters@,
                same_hint(waiters@.len(), hint),
            ),
    {
        let mut hints: Vec<Option<Duration>> = Vec::new();
        let mut i: usize = 0;
        while i < waiters.len()
            invariant
                i <= waiters.len(),
                hints@ == same_hint(i as nat, hint),
            decreases waiters.len() - i,
        {
            hints.push(hint);
            i += 1;
            assert(hints@ == same_hint(i as nat, hint));
        }
        self.fail_waiters(waiters, &hints);
    }

    /// Serves the queue with `available` permits and returns how many of
    /// them were granted. Each grant counts as an acquired lease.
    pub fn drain(&mut self, available: u32, returnable: bool) -> (spent: u32)
        requires
            old(self).wf(),
        ensures
            final(self).wf(),
            final(self)@ == old(self)@.drained(available as nat, returnable),
            spent == old(self)@.drain_spent(available as nat),
            spent <= available,
    {
        let ghost d = drain_model(self@.queue, available as nat, self@.order);
        proof {
            lemma_drain(self@.queue, available as nat, self@.order);
            self.queue.lemma_wf();
        }
        let granted = self.queue.drain(available);
        proof {
            self.queue.lemma_wf();
            let q0 = old(self)@.queue;
            assert forall|i: int| 0 <= i < self@.queue.len() implies (
            #[trigger] self@.queue[i]).permits <= self@.capacity by {
                match self@.order {
                    QueueProcessingOrder::OldestFirst => {
                        assert(self@.queue[i] == q0[q0.len() - d.rest.len() + i]);
                    },
                    QueueProcessingOrder::NewestFirst => {
                        assert(self@.queue[i] == q0[i]);
                    },
                }
            }
        }
        let ghost all = grants(granted@, returnable);
        let mut spent: u32 = 0;
        let mut i: usize = 0;
        assert(self.completions@ == old(self).completions@ + all.subrange(0, 0));
        assert(granted@.subrange(0, 0) == Seq::<Waiter>::empty());
        while i < granted.len()
            invariant
                i <= granted.len(),
                granted@ == d.granted,
                total_permits(d.granted) <= available,
                all == grants(granted@, returnable),
                self.queue.wf(),
                self.queue@ == d.rest,
                self.queue.limit() == old(self).queue.limit(),
                self.queue.order() == old(self).queue.order(),
                self.queue.next_ticket() == old(self).queue.next_ticket(),
                self.capacity == old(self).capacity,
                self.idle_since == old(self).idle_since,
                self.disposed == old(self).disposed,
                self.failed == old(self).failed,
                self.successful == bumped_by(old(self).successful as nat, i as nat),
                self.completions@ == old(self).completions@ + all.subrange(0, i as int),
                spent == total_permits(granted@.subrange(0, i as int)),
            decreases granted.len() - i,
        {
            let waiter = granted[i];
            let completion = Completion {
                ticket: waiter.ticket,
                permits: waiter.permits,
                outcome: WaitOutcome::Granted {
                    refund: if returnable {
                        waiter.permits
                    } else {
                        0
                    },
                },
            };
            assert(completion == all[i as int]);
            proof {
                let upto = granted@.subrange(0, i + 1);
                assert(upto.drop_last() == granted@.subrange(0, i as int));
                lemma_total_subrange(granted@, 0, i + 1);
            }
            self.completions.push(completion);
            self.successful = bump(self.successful);
            spent = spent + waiter.permits;
            i += 1;
            assert(self.completions@ == old(self).completions@ + all.subrange(0, i as int));
        }
        assert(all.subrange(0, i as int) == all);
        assert(granted@.subrange(0, i as int) == granted@);
        spent
    }

    /// Takes the waiter with the ticket out of the queue and says whether
    /// it was there.
    pub fn cancel(&mut self, ticket: u64) -> (found: bool)
        requires
            old(self).wf(),
        ensures
            final(self).wf(),
            final(self)@ == old(self)@.without(ticket),
            found == old(self)@.holds(ticket),
    {
        let removed = self.queue.remove(ticket);
        proof {
            self.queue.lemma_wf();
            let q0 = old(self)@.queue;
            let at = position_of(q0, ticket) as int;
            assert forall|i: int| 0 <= i < self@.queue.len() implies (
            #[trigger] self@.queue[i]).permits <= self@.capacity by {
                if at < q0.len() {
                    if i < at {
                        assert(self@.queue[i] == q0[i]);
                    } else {
                        assert(self@.queue[i] == q0[i + 1]);
                    }
                }
            }
        }
        removed.is_some()
    }

    /// Marks the waiter with the ticket as abandoned and says whether it
    /// was in the queue.
    pub fn abandon(&mut self, ticket: u64) -> (found: bool)
        requires
            old(self).wf(),
        ensures
            final(self).wf(),
            final(self)@ == old(self)@.with_abandoned(ticket),
            found == old(self)@.holds(ticket),
    {
        let found = self.queue.abandon(ticket);
        proof {
            self.queue.lemma_wf();
        }
        found
    }

    /// Disposes the turnstile and returns the waiters that were in the queue,
    /// the oldest first. They are not sent away yet: that is `fail_waiters`.
    pub fn shut(&mut self) -> (waiters: Vec<Waiter>)
        requires
            old(self).wf(),
        ensures
            final(self).wf(),
            final(self)@ == old(self)@.shut(),
            waiters@ == old(self)@.queue,
    {
        let waiters = self.queue.take_all();
        self.disposed = true;
        proof {
            self.queue.lemma_wf();
        }
        waiters
    }

    /// Hands over the waits that ended since the last call, the earliest
    /// first.
    pub fn take_completions(&mut self) -> (completions: Vec<Completion>)
        requires
            old(self).wf(),
        ensures
            final(self).wf(),
            final(self)@ == old(self)@.collected(),
            completions@ == old(self)@.completions,
    {
        let mut completions: Vec<Completion> = Vec::new();
        std::mem::swap(&mut self.completions, &mut completions);
        completions
    }

    /// The counters, with the given number of available permits.
    pub fn statistics(&self, available: u32) -> (stats: RateLimiterStatistics)
        requires
            self.wf(),
        ensures
            stats.current_available_permits == available,
            stats.current_queued_count == self@.queued(),
            stats.total_successful_leases == self@.successful,
            stats.total_failed_leases == self@.failed,
    {
        RateLimiterStatistics::new(
            available as i64,
            self.queue.queued_permits(),
            self.successful,
            self.failed,
        )
    }

    /// For how long the limiter has been idle at `now`, if it is.
    pub fn idle_duration(&self, now: Instant) -> (idle: Option<Duration>)
        ensures
            idle == idle_for(self@.idle_since, now),
    {
        match self.idle_since {
            Some(since) => Some(now.saturating_duration_since(since)),
            None => None,
        }
    }
}

/// The time from `since` to `now`, where there is a `since`.
pub open spec fn idle_for(since: Option<Instant>, now: Instant) -> Option<Duration> {
    match since {
        Some(since) => Some(Duration { nanos: crate::time::clamp_u64(now@ - since@) as u64 }),
        None => None,
    }
}

} // verus!
