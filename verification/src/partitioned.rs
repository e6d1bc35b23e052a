//! A family of limiters, one for each key.

use vstd::prelude::*;
use crate::error::RateLimitError;
use tokio::sync::oneshot::Receiver;
use tokio_util::sync::CancellationToken;
use crate::host::{abandoned_all, accords, settles, LimiterHost, Wait};
use crate::slots::{lemma_slot_found, lemma_slot_of, slot_of};
use crate::turnstile::answers;
use crate::lease::RateLimitLease;
use crate::limiters::concurrency::ConcurrencyLimiterOptions;
use crate::limiters::fixed_window::FixedWindowRateLimiterOptions;
use crate::limiters::limiter::{Limiter, LimiterOptions, LimiterState};
use crate::limiters::sliding_window::SlidingWindowRateLimiterOptions;
use crate::limiters::token_bucket::TokenBucketRateLimiterOptions;
use crate::queue::QueueProcessingOrder;
use crate::statistics::RateLimiterStatistics;
use crate::time::{Duration, Instant};
use crate::traits::RateLimiter;

verus! {

/// The idle time limit of a family that is built without one.
pub const DEFAULT_IDLE_TIME_LIMIT_SECS: u64 = 10;

/// The state of a family of limiters.
pub struct PartitionedState {
    /// The keys that have a limiter, in the order in which they got it.
    pub keys: Seq<u64>,
    /// The limiters of the keys, in the same order.
    pub states: Seq<LimiterState>,
    /// How the limiter of a new key is set up.
    pub options: LimiterOptions,
    /// After how long without use the limiter of a key may be dropped.
    pub idle_time_limit: Duration,
}

impl PartitionedState {
    /// What holds of every family: each key has one limiter, and all
    /// limiters are as `LimiterState::inv` says.
    pub open spec fn inv(self) -> bool {
        &&& self.keys.len() == self.states.len()
        &&& self.options.valid()
        &&& forall|i: int, j: int| 0 <= i < j < self.keys.len() ==> self.keys[i] != self.keys[j]
        &&& forall|i: int| 0 <= i < self.states.len() ==> (#[trigger] self.states[i]).inv()
    }

    /// Whether the key has a limiter.
    pub open spec fn has(self, key: u64) -> bool {
        slot_of(self.keys, key) < self.keys.len()
    }

    /// The limiter of the key, which has one.
    pub open spec fn limiter(self, key: u64) -> LimiterState {
        self.states[slot_of(self.keys, key) as int]
    }

    /// The family in which the key has a limiter: the one that it had, or
    /// a new one that is built at `now`.
    pub open spec fn resolved(self, key: u64, now: Instant) -> PartitionedState {
        if self.has(key) {
            self
        } else {
            PartitionedState {
                keys: self.keys.push(key),
                states: self.states.push(LimiterState::initial(self.options, now)),
                ..self
            }
        }
    }

    /// Whether `other` is this family but for the limiter of the key.
    pub open spec fn same_but(self, other: PartitionedState, key: u64) -> bool {
        &&& other.keys == self.keys
        &&& other.options == self.options
        &&& other.idle_time_limit == self.idle_time_limit
        &&& other.states.len() == self.states.len()
        &&& forall|i: int|
            0 <= i < self.states.len() && i != slot_of(self.keys, key) ==> other.states[i]
                == self.states[i]
    }

    /// The family without any limiters.
    pub open spec fn cleared(self) -> PartitionedState {
        PartitionedState { keys: Seq::empty(), states: Seq::empty(), ..self }
    }

    /// A key gets its limiter when it is first used and keeps it: after a
    /// key was resolved it has a limiter, every other key has the limiter
    /// that it had, and the family has grown by one if the key was new and
    /// not at all if it was not.
    pub proof fn law_resolved(self, key: u64, now: Instant)
        requires
            self.inv(),
        ensures
            self.resolved(key, now).has(key),
            self.resolved(key, now).keys.len() == self.keys.len() + (if self.has(key) {
                0int
            } else {
                1int
            }),
            self.has(key) ==> self.resolved(key, now).limiter(key) == self.limiter(key),
            !self.has(key) ==> self.resolved(key, now).limiter(key) == LimiterState::initial(
                self.options,
                now,
            ),
            forall|other: u64|
                other != key && self.has(other) ==> #[trigger] self.resolved(key, now).has(other)
                    && self.resolved(key, now).limiter(other) == self.limiter(other),
            self.resolved(key, now).resolved(key, now) == self.resolved(key, now),
    {
        lemma_slot_of(self.keys, key);
        let after = self.resolved(key, now);
        if !self.has(key) {
            lemma_slot_found(after.keys, key, self.keys.len() as int);
        }
        assert forall|other: u64| other != key && self.has(other) implies #[trigger] after.has(
            other,
        ) && after.limiter(other) == self.limiter(other) by {
            lemma_slot_of(self.keys, other);
            lemma_slot_found(after.keys, other, slot_of(self.keys, other) as int);
        }
    }
}

/// A limiter for each key, built when the key is first used, with the
/// channels of those who wait at it.
pub struct PartitionedRateLimiter {
    keys: Vec<u64>,
    hosts: Vec<LimiterHost>,
    partitioner: LimiterOptions,
    idle_time_limit: Duration,
}

impl View for PartitionedRateLimiter {
    type V = PartitionedState;

    closed spec fn view(&self) -> PartitionedState {
        PartitionedState {
            keys: self.keys@,
            states: Seq::new(self.hosts@.len(), |i: int| self.hosts@[i]@.limiter),
            options: self.partitioner,
            idle_time_limit: self.idle_time_limit,
        }
    }
}

impl PartitionedRateLimiter {
    /// The family is sound: its state is as `PartitionedState::inv` says,
    /// every limiter is set up as the family's options say, and no wait
    /// that ended is left to be dealt with.
    pub closed spec fn wf(&self) -> bool {
        &&& self.keys@.len() == self.hosts@.len()
        &&& self.partitioner.valid()
        &&& forall|i: int, j: int| 0 <= i < j < self.keys@.len() ==> self.keys@[i] != self.keys@[j]
        &&& forall|i: int|
            0 <= i < self.hosts@.len() ==> (#[trigger] self.hosts@[i]).wf()
                && self.hosts@[i].options() == self.partitioner
    }

    pub proof fn lemma_wf(&self)
        requires
            self.wf(),
        ensures
            self@.inv(),
            forall|i: int|
                0 <= i < self@.states.len() ==> (
                #[trigger] self@.states[i]).turnstile().completions.len() == 0,
    {
        assert forall|i: int| 0 <= i < self@.states.len() implies (#[trigger] self@.states[i]).inv()
            && self@.states[i].turnstile().completions.len() == 0 by {
            self.hosts@[i].lemma_wf();
        }
    }

    /// A family whose limiters are set up as `partitioner` says, with the
    /// idle time limit of ten seconds.
    pub fn new(partitioner: LimiterOptions) -> (r: Result<PartitionedRateLimiter, RateLimitError>)
        ensures
            match r {
                Ok(family) => {
                    &&& partitioner.valid()
                    &&& family.wf()
                    &&& family@ == (PartitionedState {
                        keys: Seq::empty(),
                        states: Seq::empty(),
                        options: partitioner,
                        idle_time_limit: Duration { nanos: 10_000_000_000 },
                    })
                },
                Err(e) => !partitioner.valid() && e.is_invalid(partitioner.fault()),
            },
    {
        PartitionedRateLimiter::with_idle_limit(
            partitioner,
            Duration::from_secs(DEFAULT_IDLE_TIME_LIMIT_SECS),
        )
    }

    /// A family whose limiters are set up as `partitioner` says. The idle
    /// time limit is kept for whoever drops idle limiters; the family
    /// itself drops none.
    pub fn with_idle_limit(partitioner: LimiterOptions, idle_time_limit: Duration) -> (r: Result<
        PartitionedRateLimiter,
        RateLimitError,
    >)
        ensures
            match r {
                Ok(family) => {
                    &&& partitioner.valid()
                    &&& family.wf()
                    &&& family@ == (PartitionedState {
                        keys: Seq::empty(),
                        states: Seq::empty(),
                        options: partitioner,
                        idle_time_limit,
                    })
                },
                Err(e) => !partitioner.valid() && e.is_invalid(partitioner.fault()),
            },
    {
        if let Some(e) = partitioner.check() {
            return Err(e);
        }
        let family = PartitionedRateLimiter {
            keys: Vec::new(),
            hosts: Vec::new(),
            partitioner,
            idle_time_limit,
        };
        assert(family@.states =~= Seq::<LimiterState>::empty());
        Ok(family)
    }

    pub fn idle_time_limit(&self) -> (limit: Duration)
        ensures
            limit == self@.idle_time_limit,
    {
        self.idle_time_limit
    }

    /// The limiter of the key, if it has one.
    pub fn limiter(&self, key: u64) -> (member: Option<&Limiter>)
        requires
            self.wf(),
        ensures
            match member {
                Some(limiter) => self@.has(key) && limiter.wf() && limiter@ == self@.limiter(key),
                None => !self@.has(key),
            },
    {
        let at = self.find(key);
        if at < self.hosts.len() {
            Some(self.hosts[at].limiter())
        } else {
            None
        }
    }

    /// The place of the key's limiter, or the number of limiters if the
    /// key has none.
    fn find(&self, key: u64) -> (at: usize)
        requires
            self.wf(),
        ensures
            at == slot_of(self@.keys, key),
            at <= self@.keys.len(),
    {
        let mut at: usize = 0;
        while at < self.keys.len()
            invariant
                at <= self.keys.len(),
                forall|i: int| 0 <= i < at ==> self.keys@[i] != key,
            decreases self.keys.len() - at,
        {
            if self.keys[at] == key {
                proof {
                    lemma_slot_found(self.keys@, key, at as int);
                }
                return at;
            }
            at += 1;
        }
        proof {
            lemma_slot_found(self.keys@, key, at as int);
        }
        at
    }

    /// The place of the key's limiter, which is built at `now` if the key
    /// has none.
    fn get_limiter(&mut self, key: u64, now: Instant) -> (at: usize)
        requires
            old(self).wf(),
        ensures
            final(self).wf(),
            final(self)@ == old(self)@.resolved(key, now),
            at == slot_of(final(self)@.keys, key),
            at < final(self)@.keys.len(),
    {
        let at = self.find(key);
        if at < self.keys.len() {
            return at;
        }
        proof {
            lemma_slot_of(self.keys@, key);
        }
        match LimiterHost::new(self.partitioner, now) {
            Ok(host) => {
                let ghost before = self@;
                self.keys.push(key);
                self.hosts.push(host);
                proof {
                    assert(self@.states =~= before.states.push(
                        LimiterState::initial(self.partitioner, now),
                    ));
                    lemma_slot_found(self.keys@, key, at as int);
                }
                at
            },
            Err(_) => {
                assert(false);
                at
            },
        }
    }

    /// Asks the limiter of the key for `permit_count` permits without
    /// waiting. A key that has no limiter gets one.
    pub fn attempt_acquire(&mut self, key: u64, permit_count: u32, now: Instant) -> (r: Result<
        RateLimitLease,
        RateLimitError,
    >)
        requires
            old(self).wf(),
        ensures
            final(self).wf(),
            ({
                let family = old(self)@.resolved(key, now);
                let limiter = family.limiter(key);
                &&& family.same_but(final(self)@, key)
                &&& settles(
                    limiter.acquire(permit_count, false, false, now),
                    final(self)@.limiter(key),
                )
                &&& answers(
                    r,
                    limiter.decision(permit_count, false, false, now),
                    permit_count,
                    limiter.turnstile().capacity,
                    limiter.cleanup_for(permit_count),
                    limiter.hint(permit_count, now),
                )
            }),
    {
        let at = self.get_limiter(key, now);
        let ghost family = self@;
        let r = self.hosts[at].attempt_acquire(permit_count, now);
        assert(self@.states =~= family.states.update(at as int, self@.states[at as int]));
        r
    }

    /// Asks the limiter of the key for `permit_count` permits and is ready
    /// to wait for them while the token, if there is one, is not cancelled.
    /// A key that has no limiter gets one.
    pub fn acquire_async(
        &mut self,
        key: u64,
        permit_count: u32,
        cancel_token: Option<&CancellationToken>,
        now: Instant,
    ) -> (r: Result<Wait, RateLimitError>)
        requires
            old(self).wf(),
        ensures
            final(self).wf(),
            ({
                let family = old(self)@.resolved(key, now);
                let limiter = family.limiter(key);
                &&& family.same_but(final(self)@, key)
                &&& accords(r, limiter, final(self)@.limiter(key), permit_count, false, now) || (
                cancel_token is Some && accords(
                    r,
                    limiter,
                    final(self)@.limiter(key),
                    permit_count,
                    true,
                    now,
                ))
            }),
    {
        let at = self.get_limiter(key, now);
        let ghost family = self@;
        let r = self.hosts[at].acquire_async(permit_count, cancel_token, now);
        assert(self@.states =~= family.states.update(at as int, self@.states[at as int]));
        r
    }

    /// Ends the wait with the ticket at the limiter of the key because it
    /// was cancelled, and gives the error that the request ends with.
    pub fn cancel(
        &mut self,
        key: u64,
        ticket: u64,
        receiver: Receiver<RateLimitLease>,
        now: Instant,
    ) -> (e: RateLimitError)
        requires
            old(self).wf(),
        ensures
            final(self).wf(),
            e == RateLimitError::Cancelled,
            if old(self)@.has(key) {
                &&& old(self)@.same_but(final(self)@, key)
                &&& old(self)@.limiter(key).turnstile().precedes(
                    final(self)@.limiter(key).turnstile(),
                )
                &&& old(self)@.limiter(key).turnstile().holds(ticket) ==> settles(
                    old(self)@.limiter(key).cancelled(ticket, now),
                    final(self)@.limiter(key),
                )
                &&& !final(self)@.limiter(key).turnstile().holds(ticket)
            } else {
                final(self)@ == old(self)@
            },
    {
        let at = self.find(key);
        if at < self.hosts.len() {
            let ghost family = self@;
            let e = self.hosts[at].cancel(ticket, receiver, now);
            assert(self@.states =~= family.states.update(at as int, self@.states[at as int]));
            e
        } else {
            RateLimitError::Cancelled
        }
    }

    /// What the limiter of the key reports at `now`. A key that has no
    /// limiter gets one.
    pub fn get_statistics(&mut self, key: u64, now: Instant) -> (stats: RateLimiterStatistics)
        requires
            old(self).wf(),
        ensures
            final(self).wf(),
            final(self)@ == old(self)@.resolved(key, now),
            stats == crate::limiters::chained::member_statistics(final(self)@.limiter(key), now),
    {
        let at = self.get_limiter(key, now);
        proof {
            self.hosts@[at as int].lemma_wf();
            self.hosts@[at as int]@.limiter.turnstile().lemma_counts_fit();
        }
        self.hosts[at].get_statistics(now)
    }

    /// How many keys have a limiter.
    pub fn partition_count(&self) -> (count: usize)
        requires
            self.wf(),
        ensures
            count == self@.keys.len(),
    {
        self.keys.len()
    }

    /// Drops all limiters. A key that is used afterwards gets a new one.
    pub fn clear(&mut self)
        requires
            old(self).wf(),
        ensures
            final(self).wf(),
            final(self)@ == old(self)@.cleared(),
    {
        self.keys.clear();
        self.hosts.clear();
        assert(self@.states =~= Seq::<LimiterState>::empty());
    }

    /// Releases a lease that the limiter of the key handed out. Nothing
    /// happens to the family if the key has no limiter; the cleanup leaves
    /// the lease all the same.
    pub fn release(&mut self, key: u64, lease: &mut RateLimitLease, now: Instant)
        requires
            old(self).wf(),
        ensures
            final(self).wf(),
            if old(self)@.has(key) {
                &&& old(self)@.same_but(final(self)@, key)
                &&& settles(
                    old(self)@.limiter(key).released(
                        old(lease).acquired(),
                        old(lease).cleanup(),
                        now,
                    ),
                    final(self)@.limiter(key),
                )
            } else {
                final(self)@ == old(self)@
            },
            final(lease).cleanup() is None,
            final(lease).acquired() == old(lease).acquired(),
            final(lease).metadata() == old(lease).metadata(),
    {
        let at = self.find(key);
        if at < self.hosts.len() {
            let ghost family = self@;
            self.hosts[at].release(lease, now);
            assert(self@.states =~= family.states.update(at as int, self@.states[at as int]));
        } else {
            let _ = lease.take_cleanup();
        }
    }

    /// Replenishes every limiter at `now`, as their timers do.
    pub fn replenish(&mut self, now: Instant)
        requires
            old(self).wf(),
        ensures
            final(self).wf(),
            final(self)@.keys == old(self)@.keys,
            final(self)@.options == old(self)@.options,
            final(self)@.idle_time_limit == old(self)@.idle_time_limit,
            final(self)@.states.len() == old(self)@.states.len(),
            forall|i: int|
                0 <= i < final(self)@.states.len() ==> settles(
                    old(self)@.states[i].replenished(now),
                    #[trigger] final(self)@.states[i],
                ),
    {
        let mut i: usize = 0;
        while i < self.hosts.len()
            invariant
                self.wf(),
                i <= self@.states.len(),
                self@.keys == old(self)@.keys,
                self@.options == old(self)@.options,
                self@.idle_time_limit == old(self)@.idle_time_limit,
                self@.states.len() == old(self)@.states.len(),
                forall|j: int|
                    0 <= j < i ==> settles(
                        old(self)@.states[j].replenished(now),
                        #[trigger] self@.states[j],
                    ),
                forall|j: int| i <= j < self@.states.len() ==> self@.states[j] == old(self)@.states[j],
            decreases self.hosts.len() - i,
        {
            let ghost family = self@;
            self.hosts[i].replenish(now);
            assert(self@.states =~= family.states.update(i as int, self@.states[i as int]));
            i += 1;
        }
    }

    /// Disposes every limiter at `now` and sends every waiter away.
    pub fn dispose(&mut self, now: Instant)
        requires
            old(self).wf(),
        ensures
            final(self).wf(),
            final(self)@.keys == old(self)@.keys,
            final(self)@.options == old(self)@.options,
            final(self)@.idle_time_limit == old(self)@.idle_time_limit,
            final(self)@.states.len() == old(self)@.states.len(),
            forall|i: int|
                0 <= i < final(self)@.states.len() ==> settles(
                    old(self)@.states[i].disposed(now),
                    #[trigger] final(self)@.states[i],
                ) && final(self)@.states[i].turnstile().disposed,
    {
        let mut i: usize = 0;
        while i < self.hosts.len()
            invariant
                self.wf(),
                i <= self@.states.len(),
                self@.keys == old(self)@.keys,
                self@.options == old(self)@.options,
                self@.idle_time_limit == old(self)@.idle_time_limit,
                self@.states.len() == old(self)@.states.len(),
                forall|j: int|
                    0 <= j < i ==> settles(
                        old(self)@.states[j].disposed(now),
                        #[trigger] self@.states[j],
                    ) && self@.states[j].turnstile().disposed,
                forall|j: int| i <= j < self@.states.len() ==> self@.states[j] == old(self)@.states[j],
            decreases self.hosts.len() - i,
        {
            let ghost family = self@;
            self.hosts[i].dispose(now);
            assert(self@.states =~= family.states.update(i as int, self@.states[i as int]));
            i += 1;
        }
    }

    /// Marks the waiters whose receiving half is gone as abandoned, at
    /// every limiter, and gives their tickets, limiter by limiter.
    pub fn sweep(&mut self) -> (gone: Vec<Vec<u64>>)
        requires
            old(self).wf(),
        ensures
            final(self).wf(),
            final(self)@.keys == old(self)@.keys,
            final(self)@.options == old(self)@.options,
            final(self)@.idle_time_limit == old(self)@.idle_time_limit,
            final(self)@.states.len() == old(self)@.states.len(),
            gone@.len() == old(self)@.states.len(),
            forall|i: int|
                0 <= i < gone@.len() ==> #[trigger] final(self)@.states[i] == abandoned_all(
                    old(self)@.states[i],
                    gone@[i]@,
                ),
    {
        let mut gone: Vec<Vec<u64>> = Vec::new();
        let mut i: usize = 0;
        while i < self.hosts.len()
            invariant
                self.wf(),
                i <= self@.states.len(),
                gone@.len() == i,
                self@.keys == old(self)@.keys,
                self@.options == old(self)@.options,
                self@.idle_time_limit == old(self)@.idle_time_limit,
                self@.states.len() == old(self)@.states.len(),
                forall|j: int|
                    0 <= j < i ==> #[trigger] self@.states[j] == abandoned_all(
                        old(self)@.states[j],
                        gone@[j]@,
                    ),
                forall|j: int| i <= j < self@.states.len() ==> self@.states[j] == old(self)@.states[j],
            decreases self.hosts.len() - i,
        {
            let ghost family = self@;
            let tickets = self.hosts[i].sweep();
            assert(self@.states =~= family.states.update(i as int, self@.states[i as int]));
            gone.push(tickets);
            i += 1;
        }
        gone
    }
}

/// The options of a family in which every key has a token bucket.
pub fn create_per_key_token_bucket(
    token_limit: u32,
    tokens_per_period: u32,
    replenishment_period: Duration,
    queue_limit: u32,
    queue_processing_order: QueueProcessingOrder,
    auto_replenishment: bool,
) -> (options: LimiterOptions)
    ensures
        options == LimiterOptions::TokenBucket(
            TokenBucketRateLimiterOptions {
                token_limit,
                tokens_per_period,
                replenishment_period,
                queue_limit,
                queue_processing_order,
                auto_replenishment,
            },
        ),
{
    LimiterOptions::TokenBucket(
        TokenBucketRateLimiterOptions {
            token_limit,
            tokens_per_period,
            replenishment_period,
            queue_limit,
            queue_processing_order,
            auto_replenishment,
        },
    )
}

/// The options of a family in which every key has a concurrency limiter.
pub fn create_per_key_concurrency(
    permit_limit: u32,
    queue_limit: u32,
    queue_processing_order: QueueProcessingOrder,
) -> (options: LimiterOptions)
    ensures
        options == LimiterOptions::Concurrency(
            ConcurrencyLimiterOptions { permit_limit, queue_limit, queue_processing_order },
        ),
{
    LimiterOptions::Concurrency(
        ConcurrencyLimiterOptions { permit_limit, queue_limit, queue_processing_order },
    )
}

/// The options of a family in which every key has a fixed-window limiter.
pub fn create_per_key_fixed_window(
    permit_limit: u32,
    window: Duration,
    queue_limit: u32,
    queue_processing_order: QueueProcessingOrder,
    auto_replenishment: bool,
) -> (options: LimiterOptions)
    ensures
        options == LimiterOptions::FixedWindow(
            FixedWindowRateLimiterOptions {
                permit_limit,
                window,
                queue_limit,
                queue_processing_order,
                auto_replenishment,
            },
        ),
{
    LimiterOptions::FixedWindow(
        FixedWindowRateLimiterOptions {
            permit_limit,
            window,
            queue_limit,
            queue_processing_order,
            auto_replenishment,
        },
    )
}

/// The options of a family in which every key has a sliding-window
/// limiter.
pub fn create_per_key_sliding_window(
    permit_limit: u32,
    window: Duration,
    segments_per_window: u32,
    queue_limit: u32,
    queue_processing_order: QueueProcessingOrder,
    auto_replenishment: bool,
) -> (options: LimiterOptions)
    ensures
        options == LimiterOptions::SlidingWindow(
            SlidingWindowRateLimiterOptions {
                permit_limit,
                window,
                segments_per_window,
                queue_limit,
                queue_processing_order,
                auto_replenishment,
            },
        ),
{
    LimiterOptions::SlidingWindow(
        SlidingWindowRateLimiterOptions {
            permit_limit,
            window,
            segments_per_window,
            queue_limit,
            queue_processing_order,
            auto_replenishment,
        },
    )
}

} // verus!
