//! The sliding-window limiter: permits that are used up and come back one
//! window after they were taken.

use vstd::prelude::*;
use std::collections::VecDeque;
use crate::error::RateLimitError;
use crate::turnstile::{
    answers, answers_waiting, same_hint, Acquisition, Completion, Decision, Turnstile,
    TurnstileState,
};
use crate::lease::RateLimitLease;
use crate::queue::{lemma_eviction_count, lemma_total_nothing, QueueProcessingOrder};
use crate::statistics::RateLimiterStatistics;
use crate::time::{clamp_u64, Duration, Instant};
use crate::traits::{RateLimiter, ReplenishingRateLimiter};

verus! {

/// How a sliding-window limiter is set up.
#[derive(Clone, Copy, Debug)]
pub struct SlidingWindowRateLimiterOptions {
    /// The permits that can be taken within one window. At least one.
    pub permit_limit: u32,
    /// How long taken permits stay away. Longer than nothing.
    pub window: Duration,
    /// Into how many segments the window is split. At least one.
    pub segments_per_window: u32,
    /// The most permits that waiting acquisitions may ask for together.
    pub queue_limit: u32,
    pub queue_processing_order: QueueProcessingOrder,
    /// Whether a timer serves the queue once in each segment. Where none
    /// does, `try_replenish` serves it.
    pub auto_replenishment: bool,
}

impl SlidingWindowRateLimiterOptions {
    /// Whether a limiter can be built from the options.
    pub open spec fn valid(self) -> bool {
        self.permit_limit > 0 && self.window@ > 0 && self.segments_per_window > 0
    }

    /// What is wrong with the options, where something is.
    pub open spec fn fault(self) -> Seq<char> {
        if self.permit_limit == 0 {
            "permit_limit must be greater than 0"@
        } else if self.window@ == 0 {
            "window must be greater than zero"@
        } else {
            "segments_per_window must be greater than 0"@
        }
    }

    /// The options that stand in where none are given: a hundred permits a
    /// minute in ten segments, no queue, replenished by a timer.
    pub open spec fn standard() -> SlidingWindowRateLimiterOptions {
        SlidingWindowRateLimiterOptions {
            permit_limit: 100,
            window: Duration { nanos: 60_000_000_000 },
            segments_per_window: 10,
            queue_limit: 0,
            queue_processing_order: QueueProcessingOrder::OldestFirst,
            auto_replenishment: true,
        }
    }

    /// The error that building a limiter from the options gives, if any.
    pub fn check(&self) -> (r: Option<RateLimitError>)
        ensures
            match r {
                Some(e) => !self.valid() && e.is_invalid(self.fault()),
                None => self.valid(),
            },
    {
        if self.permit_limit == 0 {
            Some(RateLimitError::invalid("permit_limit must be greater than 0"))
        } else if self.window.is_zero() {
            Some(RateLimitError::invalid("window must be greater than zero"))
        } else if self.segments_per_window == 0 {
            Some(RateLimitError::invalid("segments_per_window must be greater than 0"))
        } else {
            None
        }
    }
}

impl Default for SlidingWindowRateLimiterOptions {
    fn default() -> (options: SlidingWindowRateLimiterOptions)
        ensures
            options == SlidingWindowRateLimiterOptions::standard(),
            options.valid(),
    {
        SlidingWindowRateLimiterOptions {
            permit_limit: 100,
            window: Duration::from_secs(60),
            segments_per_window: 10,
            queue_limit: 0,
            queue_processing_order: QueueProcessingOrder::OldestFirst,
            auto_replenishment: true,
        }
    }
}

/// Permits that were taken at about the same time.
#[derive(Clone, Copy, Debug, PartialEq, Eq)]
pub struct Segment {
    /// When the permits come back.
    pub expires_at: Instant,
    /// How many they are.
    pub count: u32,
}

/// The permits of the segments, taken together.
pub open spec fn total_count(segments: Seq<Segment>) -> nat
    decreases segments.len(),
{
    if segments.len() == 0 {
        0
    } else {
        total_count(segments.drop_last()) + segments.last().count as nat
    }
}

pub proof fn lemma_count_concat(a: Seq<Segment>, b: Seq<Segment>)
    ensures
        total_count(a + b) == total_count(a) + total_count(b),
    decreases b.len(),
{
    if b.len() == 0 {
        assert(a + b == a);
    } else {
        lemma_count_concat(a, b.drop_last());
        assert((a + b).drop_last() == a + b.drop_last());
        assert((a + b).last() == b.last());
    }
}

pub proof fn lemma_count_split(segments: Seq<Segment>, at: int)
    requires
        0 <= at <= segments.len(),
    ensures
        total_count(segments) == total_count(segments.subrange(0, at)) + total_count(
            segments.subrange(at, segments.len() as int),
        ),
{
    lemma_count_concat(segments.subrange(0, at), segments.subrange(at, segments.len() as int));
    assert(segments == segments.subrange(0, at) + segments.subrange(at, segments.len() as int));
}

/// Where every segment holds something, only no segments hold nothing.
pub proof fn lemma_count_nothing(segments: Seq<Segment>)
    requires
        forall|i: int| 0 <= i < segments.len() ==> (#[trigger] segments[i]).count >= 1,
    ensures
        total_count(segments) == 0 <==> segments.len() == 0,
    decreases segments.len(),
{
    if segments.len() > 0 {
        assert(segments.last() == segments[segments.len() - 1]);
    }
}

/// The segments come in the order in which their permits come back.
pub open spec fn in_order(segments: Seq<Segment>) -> bool {
    forall|i: int, j: int|
        0 <= i < j < segments.len() ==> segments[i].expires_at@ <= segments[j].expires_at@
}

/// How many segments, from the oldest on, have their permits back at `now`.
pub open spec fn expired_count(segments: Seq<Segment>, now: Instant) -> nat
    decreases segments.len(),
{
    if segments.len() == 0 || segments[0].expires_at@ > now@ {
        0
    } else {
        1 + expired_count(segments.subrange(1, segments.len() as int), now)
    }
}

/// Of segments in order, the expired ones are exactly those whose permits
/// are back at `now`.
pub proof fn lemma_expired_count(segments: Seq<Segment>, now: Instant)
    requires
        in_order(segments),
    ensures
        expired_count(segments, now) <= segments.len(),
        forall|i: int|
            0 <= i < segments.len() ==> ((#[trigger] segments[i]).expires_at@ <= now@ <==> i
                < expired_count(segments, now)),
    decreases segments.len(),
{
    if segments.len() == 0 {
    } else if segments[0].expires_at@ > now@ {
        assert forall|i: int| 0 <= i < segments.len() implies (#[trigger] segments[i]).expires_at@
            > now@ by {
            if i > 0 {
                assert(segments[0].expires_at@ <= segments[i].expires_at@);
            }
        }
    } else {
        let tail = segments.subrange(1, segments.len() as int);
        assert forall|i: int, j: int| 0 <= i < j < tail.len() implies tail[i].expires_at@
            <= tail[j].expires_at@ by {
            assert(tail[i] == segments[i + 1] && tail[j] == segments[j + 1]);
        }
        lemma_expired_count(tail, now);
        assert forall|i: int| 0 <= i < segments.len() implies ((
        #[trigger] segments[i]).expires_at@ <= now@ <==> i < expired_count(segments, now)) by {
            if i > 0 {
                assert(tail[i - 1] == segments[i]);
            }
        }
    }
}

/// The state of a sliding-window limiter.
pub struct SlidingWindowState {
    pub turnstile: TurnstileState,
    /// The permits that are away, the oldest segment first.
    pub segments: Seq<Segment>,
    pub window: Duration,
    pub segments_per_window: nat,
    pub auto_replenishment: bool,
}

impl SlidingWindowState {
    /// A limiter from which nothing was taken yet.
    pub open spec fn initial(
        options: SlidingWindowRateLimiterOptions,
        now: Instant,
    ) -> SlidingWindowState {
        SlidingWindowState {
            turnstile: TurnstileState::initial(
                options.permit_limit as nat,
                options.queue_limit as nat,
                options.queue_processing_order,
                now,
            ),
            segments: Seq::empty(),
            window: options.window,
            segments_per_window: options.segments_per_window as nat,
            auto_replenishment: options.auto_replenishment,
        }
    }

    /// The permits that are away.
    pub open spec fn used(self) -> nat {
        total_count(self.segments)
    }

    /// The permits that are there, as the limiter last saw it.
    pub open spec fn available(self) -> nat {
        (self.turnstile.capacity - self.used()) as nat
    }

    /// What holds of every sliding-window limiter: the segments are in
    /// order and none is empty, no more permits are away than there are,
    /// somebody waits only while permits are away, and the limiter is idle
    /// exactly while none are.
    pub open spec fn inv(self) -> bool {
        &&& self.turnstile.inv()
        &&& self.window@ > 0
        &&& 1 <= self.segments_per_window <= u32::MAX
        &&& in_order(self.segments)
        &&& forall|i: int| 0 <= i < self.segments.len() ==> (#[trigger] self.segments[i]).count >= 1
        &&& self.used() <= self.turnstile.capacity
        &&& self.turnstile.queue.len() > 0 ==> self.used() > 0
        &&& self.turnstile.idle_since is Some <==> self.used() == 0
    }

    /// The segments whose permits are still away at `now`.
    pub open spec fn live(self, now: Instant) -> Seq<Segment> {
        self.segments.subrange(
            expired_count(self.segments, now) as int,
            self.segments.len() as int,
        )
    }

    /// The permits that are there at `now`.
    pub open spec fn available_at(self, now: Instant) -> nat {
        (self.turnstile.capacity - total_count(self.live(now))) as nat
    }

    /// How long one segment of the window lasts.
    pub open spec fn segment_span(self) -> nat {
        self.window@ / self.segments_per_window
    }

    /// How long ago, at `now`, the newest segment was begun.
    pub open spec fn age_of_newest(self, now: Instant) -> nat {
        clamp_u64(now@ - clamp_u64(self.segments.last().expires_at@ - self.window@))
    }

    /// When permits that are taken at `now` come back: a window later, and
    /// not before those of the newest segment.
    pub open spec fn expiry_for(self, now: Instant) -> Instant {
        let due = Instant { nanos: clamp_u64((now@ + self.window@) as int) as u64 };
        if self.segments.len() > 0 && self.segments.last().expires_at@ > due@ {
            self.segments.last().expires_at
        } else {
            due
        }
    }

    /// The segments after `n` permits were taken at `now`: they join the
    /// newest segment if it was begun less than a segment's span ago, and
    /// begin a segment of their own if not.
    pub open spec fn recorded(self, n: nat, now: Instant) -> Seq<Segment> {
        if n == 0 {
            self.segments
        } else if self.segments.len() > 0 && self.age_of_newest(now) < self.segment_span() {
            self.segments.update(
                self.segments.len() - 1,
                Segment {
                    count: (self.segments.last().count + n) as u32,
                    ..self.segments.last()
                },
            )
        } else {
            self.segments.push(Segment { expires_at: self.expiry_for(now), count: n as u32 })
        }
    }

    /// How long a request that was turned down at `now` should wait: until
    /// the permits of the oldest segment are back.
    pub open spec fn retry_after(self, now: Instant) -> Duration {
        if self.live(now).len() == 0 {
            Duration { nanos: 0 }
        } else {
            Duration { nanos: clamp_u64(self.live(now)[0].expires_at@ - now@) as u64 }
        }
    }

    /// The limiter without the segments whose permits are back at `now`.
    /// Where that leaves it with all permits and nobody waiting, it has
    /// been idle since the last of them came back.
    pub open spec fn expired(self, now: Instant) -> SlidingWindowState {
        let gone = expired_count(self.segments, now) as int;
        let live = self.live(now);
        SlidingWindowState {
            segments: live,
            turnstile: if gone > 0 && live.len() == 0 && self.turnstile.queue.len() == 0 {
                self.turnstile.idle_from(self.segments[gone - 1].expires_at)
            } else {
                self.turnstile
            },
            ..self
        }
    }

    /// The limiter after the queue was served at `now` with the permits
    /// that are there. What is granted is taken at `now`.
    pub open spec fn served(self, now: Instant) -> SlidingWindowState {
        let spent = self.turnstile.drain_spent(self.available());
        let segments = self.recorded(spent, now);
        SlidingWindowState {
            segments,
            turnstile: self.turnstile.drained(self.available(), false).settled(
                total_count(segments) == 0,
                now,
            ),
            ..self
        }
    }

    /// The limiter after a replenishment at `now`: the permits that are due
    /// are back, and the queue is served.
    pub open spec fn replenished(self, now: Instant) -> SlidingWindowState {
        if self.turnstile.disposed {
            self
        } else {
            self.expired(now).served(now)
        }
    }

    /// The state in which a request for `n` permits at `now` is decided:
    /// where permits are due, they are back and the queue is served.
    pub open spec fn entered(self, n: u32, now: Instant) -> SlidingWindowState {
        if n > self.turnstile.capacity || self.turnstile.disposed || expired_count(
            self.segments,
            now,
        ) == 0 {
            self
        } else {
            self.expired(now).served(now)
        }
    }

    /// What is done with a request for `n` permits in this state.
    pub open spec fn decision(self, n: u32, waiting: bool, cancelled: bool) -> Decision {
        self.turnstile.decision(n, self.available(), self.available() > 0, waiting, cancelled)
    }

    /// The limiter after a request for `n` permits at `now`.
    pub open spec fn acquire(
        self,
        n: u32,
        waiting: bool,
        cancelled: bool,
        now: Instant,
    ) -> SlidingWindowState {
        let entered = self.entered(n, now);
        match entered.decision(n, waiting, cancelled) {
            Decision::Grant => {
                let segments = entered.recorded(n as nat, now);
                SlidingWindowState {
                    segments,
                    turnstile: entered.turnstile.with_success().settled(
                        total_count(segments) == 0,
                        now,
                    ),
                    ..entered
                }
            },
            Decision::Reject => SlidingWindowState {
                turnstile: entered.turnstile.with_failure(),
                ..entered
            },
            Decision::Enqueue => {
                let leaving = entered.turnstile.evicted_by(n);
                SlidingWindowState {
                    turnstile: entered.turnstile.enqueued(n).with_failed(
                        leaving,
                        same_hint(leaving.len(), Some(entered.retry_after(now))),
                    ),
                    ..entered
                }
            },
            _ => entered,
        }
    }

    /// The limiter after a call of `try_replenish` at `now`.
    pub open spec fn try_replenished(self, now: Instant) -> SlidingWindowState {
        if self.auto_replenishment {
            self
        } else {
            self.replenished(now)
        }
    }

    /// Whether a replenishment at `now` grants permits to somebody who
    /// waits.
    pub open spec fn replenishment_grants(self, now: Instant) -> bool {
        !self.turnstile.disposed && self.expired(now).turnstile.drain_spent(
            self.expired(now).available(),
        ) > 0
    }

    /// The limiter after the wait with the ticket was cancelled.
    pub open spec fn cancelled(self, ticket: u64, now: Instant) -> SlidingWindowState {
        SlidingWindowState {
            turnstile: self.turnstile.without(ticket).settled(self.used() == 0, now),
            ..self
        }
    }

    /// The limiter after the waiter with the ticket went away.
    pub open spec fn abandoned(self, ticket: u64) -> SlidingWindowState {
        SlidingWindowState { turnstile: self.turnstile.with_abandoned(ticket), ..self }
    }

    /// The limiter disposed at `now`: every waiter is sent away with a lease
    /// that was not acquired.
    pub open spec fn disposed(self, now: Instant) -> SlidingWindowState {
        SlidingWindowState {
            turnstile: self.turnstile.shut().with_failed(
                self.turnstile.queue,
                same_hint(self.turnstile.queue.len(), Some(self.retry_after(now))),
            ).settled(self.used() == 0, now),
            ..self
        }
    }

    /// The limiter after its completions were collected.
    pub open spec fn collected(self) -> SlidingWindowState {
        SlidingWindowState { turnstile: self.turnstile.collected(), ..self }
    }

    /// Since when the limiter has been idle at `now`, if it is: since it
    /// last saw itself idle, or since the last permits came back if they
    /// did so unseen and nobody waits.
    pub open spec fn idle_since_at(self, now: Instant) -> Option<Instant> {
        match self.turnstile.idle_since {
            Some(since) => Some(since),
            None => if self.turnstile.queue.len() == 0 && self.segments.len() > 0 && self.live(
                now,
            ).len() == 0 {
                Some(self.segments.last().expires_at)
            } else {
                None
            },
        }
    }

    /// A request for all permits is granted when none are away.
    pub proof fn law_full_grant(self, waiting: bool, cancelled: bool)
        requires
            self.inv(),
            !self.turnstile.disposed,
            self.used() == 0,
        ensures
            self.decision(self.turnstile.capacity as u32, waiting, cancelled) == Decision::Grant,
    {
    }

    /// Where a timer serves the queue, `try_replenish` changes nothing.
    pub proof fn law_timer_replenishes(self, now: Instant)
        requires
            self.auto_replenishment,
        ensures
            self.try_replenished(now) == self,
    {
    }

    /// The permits of a segment are back exactly when its time has come:
    /// at `now` the permits that are there are all but those of the
    /// segments that expire later.
    pub proof fn law_expiry(self, now: Instant)
        requires
            self.inv(),
        ensures
            forall|i: int|
                0 <= i < self.live(now).len() ==> (#[trigger] self.live(now)[i]).expires_at@
                    > now@,
            forall|i: int|
                0 <= i < self.segments.len() - self.live(now).len() ==> (
                #[trigger] self.segments[i]).expires_at@ <= now@,
            self.available_at(now) >= self.available(),
            self.available_at(now) <= self.turnstile.capacity,
            self.available_at(now) == self.available() + total_count(
                self.segments.subrange(0, expired_count(self.segments, now) as int),
            ),
    {
        lemma_expired_count(self.segments, now);
        let k = expired_count(self.segments, now) as int;
        lemma_count_split(self.segments, k);
        assert forall|i: int| 0 <= i < self.live(now).len() implies (#[trigger] self.live(
            now,
        )[i]).expires_at@ > now@ by {
            assert(self.live(now)[i] == self.segments[k + i]);
        }
    }

    /// Dropping the segments that are due keeps the rest in order and none
    /// of them empty.
    proof fn lemma_expired(self, now: Instant)
        requires
            self.inv(),
        ensures
            in_order(self.live(now)),
            forall|i: int| 0 <= i < self.live(now).len() ==> (#[trigger] self.live(now)[i]).count
                >= 1,
            total_count(self.live(now)) <= self.used(),
            self.live(now).len() == 0 <==> total_count(self.live(now)) == 0,
            expired_count(self.live(now), now) == 0,
    {
        lemma_expired_count(self.segments, now);
        let k = expired_count(self.segments, now) as int;
        let live = self.live(now);
        lemma_count_split(self.segments, k);
        assert forall|i: int| 0 <= i < live.len() implies (#[trigger] live[i]).count >= 1 by {
            assert(live[i] == self.segments[k + i]);
        }
        assert forall|i: int, j: int| 0 <= i < j < live.len() implies live[i].expires_at@
            <= live[j].expires_at@ by {
            assert(live[i] == self.segments[k + i] && live[j] == self.segments[k + j]);
        }
        lemma_count_nothing(live);
        if live.len() > 0 {
            assert(live[0] == self.segments[k]);
        }
    }

    /// Taking permits keeps the segments in order and none of them empty,
    /// and adds what was taken to what is away.
    proof fn lemma_recorded(self, n: nat, now: Instant)
        requires
            in_order(self.segments),
            forall|i: int| 0 <= i < self.segments.len() ==> (#[trigger] self.segments[i]).count >= 1,
            self.used() + n <= u32::MAX,
        ensures
            in_order(self.recorded(n, now)),
            forall|i: int|
                0 <= i < self.recorded(n, now).len() ==> (#[trigger] self.recorded(
                    n,
                    now,
                )[i]).count >= 1,
            total_count(self.recorded(n, now)) == self.used() + n,
    {
        let after = self.recorded(n, now);
        let segments = self.segments;
        if n == 0 {
        } else if segments.len() > 0 && self.age_of_newest(now) < self.segment_span() {
            assert(after.drop_last() == segments.drop_last());
            lemma_count_split(segments, segments.len() - 1);
            assert(segments.last().count <= total_count(segments));
            assert forall|i: int| 0 <= i < after.len() implies (#[trigger] after[i]).count >= 1 by {
                if i < after.len() - 1 {
                    assert(after[i] == segments[i]);
                }
            }
            assert forall|i: int, j: int| 0 <= i < j < after.len() implies after[i].expires_at@
                <= after[j].expires_at@ by {
                assert(after[i].expires_at == segments[i].expires_at);
                assert(after[j].expires_at == segments[j].expires_at);
            }
        } else {
            assert(after.drop_last() == segments);
            assert forall|i: int| 0 <= i < after.len() implies (#[trigger] after[i]).count >= 1 by {
                if i < after.len() - 1 {
                    assert(after[i] == segments[i]);
                }
            }
            assert forall|i: int, j: int| 0 <= i < j < after.len() implies after[i].expires_at@
                <= after[j].expires_at@ by {
                if j == after.len() - 1 {
                    assert(after[i] == segments[i]);
                    assert(segments[i].expires_at@ <= segments.last().expires_at@);
                } else {
                    assert(after[i] == segments[i] && after[j] == segments[j]);
                }
            }
        }
    }
}

/// A limiter that lets `permit_limit` permits be taken within any one
/// window of time.
pub struct SlidingWindowRateLimiter {
    config: SlidingWindowRateLimiterOptions,
    turnstile: Turnstile,
    segments: VecDeque<Segment>,
    used: u32,
}

impl View for SlidingWindowRateLimiter {
    type V = SlidingWindowState;

    closed spec fn view(&self) -> SlidingWindowState {
        SlidingWindowState {
            turnstile: self.turnstile@,
            segments: self.segments@,
            window: self.config.window,
            segments_per_window: self.config.segments_per_window as nat,
            auto_replenishment: self.config.auto_replenishment,
        }
    }
}

impl SlidingWindowRateLimiter {
    /// The options that the limiter was built from.
    pub closed spec fn options(&self) -> SlidingWindowRateLimiterOptions {
        self.config
    }

    /// What a sound limiter keeps but for the two clauses on being busy
    /// and idle, which steps inside an operation may leave open.
    closed spec fn sound(&self) -> bool {
        &&& self.turnstile.wf()
        &&& self.config.valid()
        &&& self@.turnstile.capacity == self.config.permit_limit
        &&& self@.turnstile.queue_limit == self.config.queue_limit
        &&& self@.turnstile.order == self.config.queue_processing_order
        &&& self.used == self@.used()
        &&& self.used <= self.config.permit_limit
        &&& in_order(self@.segments)
        &&& forall|i: int| 0 <= i < self@.segments.len() ==> (#[trigger] self@.segments[i]).count
            >= 1
    }

    /// The limiter is sound: its state is as `SlidingWindowState::inv` says
    /// and agrees with its options.
    pub closed spec fn well_formed(&self) -> bool {
        &&& self.sound()
        &&& self@.inv()
    }

    pub proof fn lemma_well_formed(&self)
        requires
            self.wf(),
        ensures
            self@.inv(),
            self.options().valid(),
            self@.turnstile.capacity == self.options().permit_limit,
            self@.turnstile.queue_limit == self.options().queue_limit,
            self@.turnstile.order == self.options().queue_processing_order,
            self@.window == self.options().window,
            self@.segments_per_window == self.options().segments_per_window,
            self@.auto_replenishment == self.options().auto_replenishment,
    {
    }

    /// A limiter from which nothing was taken yet, idle since `now`.
    pub fn new(options: SlidingWindowRateLimiterOptions, now: Instant) -> (r: Result<
        SlidingWindowRateLimiter,
        RateLimitError,
    >)
        ensures
            match r {
                Ok(limiter) => {
                    &&& options.valid()
                    &&& limiter.wf()
                    &&& limiter.options() == options
                    &&& limiter@ == SlidingWindowState::initial(options, now)
                },
                Err(e) => !options.valid() && e.is_invalid(options.fault()),
            },
    {
        if let Some(e) = options.check() {
            return Err(e);
        }
        let turnstile = Turnstile::new(
            options.permit_limit,
            options.queue_limit,
            options.queue_processing_order,
            now,
        );
        proof {
            turnstile.lemma_wf();
        }
        Ok(
            SlidingWindowRateLimiter {
                config: options,
                turnstile,
                segments: VecDeque::new(),
                used: 0,
            },
        )
    }

    pub fn config(&self) -> (options: SlidingWindowRateLimiterOptions)
        ensures
            options == self.options(),
    {
        self.config
    }

    /// Drops the segments whose permits are back at `now` and says when the
    /// last of them came back, if there were any.
    fn remove_expired_segments(&mut self, now: Instant) -> (last: Option<Instant>)
        requires
            old(self).sound(),
        ensures
            final(self).sound(),
            final(self).config == old(self).config,
            final(self).turnstile == old(self).turnstile,
            final(self)@.segments == old(self)@.live(now),
            match last {
                Some(at) => expired_count(old(self)@.segments, now) > 0 && at == old(
                    self,
                )@.segments[expired_count(old(self)@.segments, now) - 1].expires_at,
                None => expired_count(old(self)@.segments, now) == 0,
            },
    {
        let ghost all = self.segments@;
        let mut last: Option<Instant> = None;
        proof {
            assert(all.subrange(0, all.len() as int) == all);
        }
        loop
            invariant
                self.sound(),
                self.config == old(self).config,
                self.turnstile == old(self).turnstile,
                all == old(self)@.segments,
                all.len() >= self.segments@.len(),
                self.segments@ == all.subrange(all.len() - self.segments@.len(), all.len() as int),
                expired_count(all, now) == all.len() - self.segments@.len() + expired_count(
                    self.segments@,
                    now,
                ),
                match last {
                    Some(at) => all.len() > self.segments@.len() && at == all[all.len()
                        - self.segments@.len() - 1].expires_at,
                    None => all.len() == self.segments@.len(),
                },
            ensures
                expired_count(self.segments@, now) == 0,
            decreases self.segments@.len(),
        {
            if self.segments.len() == 0 {
                break ;
            }
            let oldest = self.segments[0];
            if oldest.expires_at.as_nanos() > now.as_nanos() {
                break ;
            }
            let ghost before = self.segments@;
            self.segments.pop_front();
            proof {
                lemma_count_split(before, 1);
                assert(before.subrange(0, 1).drop_last() == Seq::<Segment>::empty());
                assert(total_count(before.subrange(0, 1).drop_last()) == 0);
                assert(before.subrange(0, 1).last() == before[0]);
                assert(self.segments@ == all.subrange(
                    all.len() - self.segments@.len(),
                    all.len() as int,
                ));
                assert forall|i: int| 0 <= i < self.segments@.len() implies (
                #[trigger] self.segments@[i]).count >= 1 by {
                    assert(self.segments@[i] == before[i + 1]);
                }
                assert forall|i: int, j: int|
                    0 <= i < j < self.segments@.len() implies self.segments@[i].expires_at@
                    <= self.segments@[j].expires_at@ by {
                    assert(self.segments@[i] == before[i + 1] && self.segments@[j] == before[j
                        + 1]);
                }
            }
            self.used = self.used - oldest.count;
            last = Some(oldest.expires_at);
        }
        last
    }

    /// Notes that `count` permits were taken at `now`.
    fn record_acquisition(&mut self, count: u32, now: Instant)
        requires
            old(self).sound(),
            old(self).used + count <= old(self).config.permit_limit,
        ensures
            final(self).sound(),
            final(self).config == old(self).config,
            final(self).turnstile == old(self).turnstile,
            final(self)@.segments == old(self)@.recorded(count as nat, now),
            final(self).used == old(self).used + count,
    {
        proof {
            self@.lemma_recorded(count as nat, now);
        }
        if count == 0 {
            return ;
        }
        let n = self.segments.len();
        if n > 0 {
            let newest = self.segments[n - 1];
            let begun = newest.expires_at.saturating_sub(self.config.window);
            let age = now.saturating_duration_since(begun);
            let span = self.config.window.divided_by(self.config.segments_per_window);
            if age.as_nanos() < span.as_nanos() {
                let ghost before = self.segments@;
                proof {
                    lemma_count_split(before, before.len() - 1);
                }
                self.segments.pop_back();
                self.segments.push_back(Segment { count: newest.count + count, ..newest });
                proof {
                    assert(self.segments@ =~= old(self)@.recorded(count as nat, now));
                }
                self.used = self.used + count;
                return ;
            }
        }
        let due = now.saturating_add(self.config.window);
        let expires_at = if n > 0 {
            due.latest(self.segments[n - 1].expires_at)
        } else {
            due
        };
        self.segments.push_back(Segment { expires_at, count });
        self.used = self.used + count;
    }

    /// Serves the queue at `now` with the permits that are there, and says
    /// how many were granted.
    fn process_queue(&mut self, now: Instant) -> (spent: u32)
        requires
            old(self).sound(),
        ensures
            final(self).wf(),
            final(self).config == old(self).config,
            final(self)@ == old(self)@.served(now),
            spent == old(self)@.turnstile.drain_spent(old(self)@.available()),
    {
        proof {
            self.turnstile.lemma_wf();
        }
        let available = self.config.permit_limit - self.used;
        proof {
            self.turnstile@.lemma_drain_leaves_busy(available as nat, false);
        }
        let spent = self.turnstile.drain(available, false);
        self.record_acquisition(spent, now);
        self.turnstile.settle(self.used == 0, now);
        proof {
            self.turnstile.lemma_wf();
            lemma_count_nothing(self@.segments);
        }
        spent
    }

    /// Brings the permits back that are due at `now` and serves the queue,
    /// where that has not been done.
    fn observe(&mut self, now: Instant)
        requires
            old(self).wf(),
            !old(self)@.turnstile.disposed,
        ensures
            final(self).wf(),
            final(self).config == old(self).config,
            final(self)@ == old(self)@.entered(0, now),
            expired_count(final(self)@.segments, now) == 0 || final(self)@.segments.len() > 0,
    {
        proof {
            self.turnstile.lemma_wf();
            self@.lemma_expired(now);
        }
        let last = self.remove_expired_segments(now);
        if let Some(at) = last {
            if self.segments.len() == 0 && self.turnstile.queue_is_empty() {
                self.turnstile.idle_from(at);
            }
            assert(self@ == old(self)@.expired(now));
            self.process_queue(now);
        } else {
            assert(self@.segments =~= old(self)@.segments);
            assert(self@ == old(self)@);
        }
    }

    /// Brings the permits back that are due at `now` and serves the queue.
    /// Says whether somebody who waited was granted permits. A disposed
    /// limiter stays as it is.
    pub fn replenish(&mut self, now: Instant) -> (granted: bool)
        requires
            old(self).wf(),
        ensures
            final(self).wf(),
            final(self).options() == old(self).options(),
            old(self)@.turnstile.precedes(final(self)@.turnstile),
            final(self)@ == old(self)@.replenished(now),
            granted == old(self)@.replenishment_grants(now),
    {
        proof {
            self.turnstile.lemma_wf();
            self@.lemma_expired(now);
        }
        if self.turnstile.is_disposed() {
            return false;
        }
        let last = self.remove_expired_segments(now);
        if let Some(at) = last {
            if self.segments.len() == 0 && self.turnstile.queue_is_empty() {
                self.turnstile.idle_from(at);
            }
        }
        assert(self@ == old(self)@.expired(now));
        let spent = self.process_queue(now);
        spent > 0
    }

    /// How long a request that is turned down at `now` should wait.
    pub fn calculate_retry_after(&self, now: Instant) -> (hint: Duration)
        requires
            self.wf(),
        ensures
            hint == self@.retry_after(now),
    {
        proof {
            lemma_expired_count(self@.segments, now);
        }
        let mut i: usize = 0;
        while i < self.segments.len()
            invariant
                self.wf(),
                i <= self.segments.len(),
                forall|j: int| 0 <= j < i ==> (#[trigger] self.segments@[j]).expires_at@ <= now@,
            decreases self.segments.len() - i,
        {
            let segment = self.segments[i];
            if segment.expires_at.as_nanos() > now.as_nanos() {
                proof {
                    lemma_expired_count(self@.segments, now);
                    let k = expired_count(self@.segments, now) as int;
                    assert(k == i) by {
                        if k < i {
                            assert(self.segments@[k].expires_at@ <= now@);
                        }
                    }
                    assert(self@.live(now)[0] == self.segments@[i as int]);
                }
                return segment.expires_at.saturating_duration_since(now);
            }
            i += 1;
        }
        proof {
            let k = expired_count(self@.segments, now) as int;
            assert(k == self.segments@.len()) by {
                if k < self.segments@.len() {
                    assert(self.segments@[k].expires_at@ <= now@);
                }
            }
        }
        Duration::zero()
    }

    /// The permits that are there at `now`.
    pub fn available_permits(&self, now: Instant) -> (available: u32)
        requires
            self.wf(),
        ensures
            available == self@.available_at(now),
            available <= self@.turnstile.capacity,
    {
        proof {
            lemma_expired_count(self@.segments, now);
            self@.law_expiry(now);
        }
        let ghost all = self.segments@;
        let ghost k = expired_count(all, now) as int;
        let mut away: u32 = self.used;
        let mut i: usize = 0;
        proof {
            assert(all.subrange(0, all.len() as int) == all);
        }
        while i < self.segments.len()
            invariant
                all == self.segments@,
                k == expired_count(all, now),
                i <= all.len(),
                i <= k <= all.len(),
                away == total_count(all.subrange(i as int, all.len() as int)),
                away <= self.used,
                self.used <= self.config.permit_limit,
                forall|j: int|
                    0 <= j < all.len() ==> ((#[trigger] all[j]).expires_at@ <= now@ <==> j < k),
            ensures
                i == k,
            decreases self.segments.len() - i,
        {
            let segment = self.segments[i];
            if segment.expires_at.as_nanos() > now.as_nanos() {
                break ;
            }
            proof {
                let tail = all.subrange(i as int, all.len() as int);
                lemma_count_split(tail, 1);
                assert(tail.subrange(0, 1).drop_last() == Seq::<Segment>::empty());
                assert(total_count(tail.subrange(0, 1).drop_last()) == 0);
                assert(tail.subrange(0, 1).last() == all[i as int]);
                assert(tail.subrange(1, tail.len() as int) == all.subrange(
                    i + 1,
                    all.len() as int,
                ));
            }
            away = away - segment.count;
            i += 1;
        }
        self.config.permit_limit - away
    }

    /// The step that both forms of acquisition share.
    fn acquire(&mut self, n: u32, waiting: bool, cancelled: bool, now: Instant) -> (r: Result<
        Acquisition,
        RateLimitError,
    >)
        requires
            old(self).wf(),
        ensures
            final(self).wf(),
            final(self).options() == old(self).options(),
            old(self)@.turnstile.precedes(final(self)@.turnstile),
            final(self)@ == old(self)@.acquire(n, waiting, cancelled, now),
            answers_waiting(
                r,
                old(self)@.entered(n, now).decision(n, waiting, cancelled),
                n,
                old(self)@.turnstile.capacity,
                None,
                Some(old(self)@.entered(n, now).retry_after(now)),
                old(self)@.turnstile.next_ticket,
            ),
    {
        proof {
            self.turnstile.lemma_wf();
        }
        if n > self.config.permit_limit {
            return Err(RateLimitError::PermitCountExceeded(n, self.config.permit_limit));
        }
        if self.turnstile.is_disposed() {
            return Err(RateLimitError::Disposed);
        }
        self.observe(now);
        proof {
            self.turnstile.lemma_wf();
        }
        let available = self.config.permit_limit - self.used;
        let decision = self.turnstile.decide(n, available, available > 0, waiting, cancelled);
        match decision {
            Decision::Exceeded => Err(
                RateLimitError::PermitCountExceeded(n, self.config.permit_limit),
            ),
            Decision::Disposed => Err(RateLimitError::Disposed),
            Decision::Cancelled => Err(RateLimitError::Cancelled),
            Decision::Grant => {
                self.record_acquisition(n, now);
                self.turnstile.count_success();
                self.turnstile.settle(self.used == 0, now);
                proof {
                    self.turnstile.lemma_wf();
                    lemma_count_nothing(self@.segments);
                }
                Ok(Acquisition::Ready(RateLimitLease::success()))
            },
            Decision::Reject => {
                let hint = self.calculate_retry_after(now);
                self.turnstile.count_failure();
                proof {
                    self.turnstile.lemma_wf();
                }
                Ok(Acquisition::Ready(RateLimitLease::failed(Some(hint))))
            },
            Decision::Enqueue => {
                let hint = self.calculate_retry_after(now);
                let (ticket, leaving) = self.turnstile.enqueue(n);
                self.turnstile.fail_each(&leaving, Some(hint));
                proof {
                    self.turnstile.lemma_wf();
                }
                Ok(Acquisition::Pending(ticket))
            },
        }
    }

    /// Releases a lease. The permits come back with time and not with the
    /// lease, so the limiter stays as it is; only the cleanup leaves the
    /// lease.
    pub fn release(&mut self, lease: &mut RateLimitLease, now: Instant)
        requires
            old(self).wf(),
        ensures
            final(self).wf(),
            final(self).options() == old(self).options(),
            old(self)@.turnstile.precedes(final(self)@.turnstile),
            final(self)@ == old(self)@,
            final(lease).cleanup() is None,
            final(lease).acquired() == old(lease).acquired(),
            final(lease).metadata() == old(lease).metadata(),
    {
        let _ = lease.take_cleanup();
    }

    /// Cancels the wait with the ticket and says whether it was still
    /// waiting.
    pub fn cancel(&mut self, ticket: u64, now: Instant) -> (found: bool)
        requires
            old(self).wf(),
        ensures
            final(self).wf(),
            final(self).options() == old(self).options(),
            old(self)@.turnstile.precedes(final(self)@.turnstile),
            final(self)@ == old(self)@.cancelled(ticket, now),
            found == old(self)@.turnstile.holds(ticket),
    {
        let found = self.turnstile.cancel(ticket);
        self.turnstile.settle(self.used == 0, now);
        proof {
            self.turnstile.lemma_wf();
        }
        found
    }

    /// Notes that nobody waits for the outcome of the wait with the ticket
    /// any more, and says whether it was still waiting.
    pub fn abandon(&mut self, ticket: u64) -> (found: bool)
        requires
            old(self).wf(),
        ensures
            final(self).wf(),
            final(self).options() == old(self).options(),
            old(self)@.turnstile.precedes(final(self)@.turnstile),
            final(self)@ == old(self)@.abandoned(ticket),
            found == old(self)@.turnstile.holds(ticket),
    {
        let found = self.turnstile.abandon(ticket);
        proof {
            self.turnstile.lemma_wf();
        }
        found
    }

    /// Disposes the limiter. Every waiter is sent away with a lease that was
    /// not acquired, and from now on requests are errors.
    pub fn dispose(&mut self, now: Instant)
        requires
            old(self).wf(),
        ensures
            final(self).wf(),
            final(self).options() == old(self).options(),
            old(self)@.turnstile.precedes(final(self)@.turnstile),
            final(self)@ == old(self)@.disposed(now),
    {
        let hint = self.calculate_retry_after(now);
        let waiters = self.turnstile.shut();
        self.turnstile.fail_each(&waiters, Some(hint));
        self.turnstile.settle(self.used == 0, now);
        proof {
            self.turnstile.lemma_wf();
        }
    }

    /// Hands over the waits that ended since the last call, the earliest
    /// first.
    pub fn take_completions(&mut self) -> (completions: Vec<Completion>)
        requires
            old(self).wf(),
        ensures
            final(self).wf(),
            final(self).options() == old(self).options(),
            old(self)@.turnstile.precedes(final(self)@.turnstile),
            final(self)@ == old(self)@.collected(),
            completions@ == old(self)@.turnstile.completions,
    {
        let completions = self.turnstile.take_completions();
        proof {
            self.turnstile.lemma_wf();
        }
        completions
    }
}

impl RateLimiter for SlidingWindowRateLimiter {
    open spec fn wf(&self) -> bool {
        self.well_formed()
    }

    open spec fn turnstile(&self) -> TurnstileState {
        self@.turnstile
    }

    fn attempt_acquire(&mut self, permit_count: u32, now: Instant) -> (r: Result<
        RateLimitLease,
        RateLimitError,
    >)
        ensures
            final(self).options() == old(self).options(),
            old(self)@.turnstile.precedes(final(self)@.turnstile),
            final(self)@ == old(self)@.acquire(permit_count, false, false, now),
            answers(
                r,
                old(self)@.entered(permit_count, now).decision(permit_count, false, false),
                permit_count,
                old(self)@.turnstile.capacity,
                None,
                Some(old(self)@.entered(permit_count, now).retry_after(now)),
            ),
    {
        proof {
            self.turnstile.lemma_wf();
        }
        match self.acquire(permit_count, false, false, now) {
            Ok(Acquisition::Ready(lease)) => Ok(lease),
            // A request that is not ready to wait never joins the queue.
            Ok(Acquisition::Pending(_)) => Err(RateLimitError::QueueLimitExceeded),
            Err(e) => Err(e),
        }
    }

    fn acquire_async(&mut self, permit_count: u32, cancelled: bool, now: Instant) -> (r: Result<
        Acquisition,
        RateLimitError,
    >)
        ensures
            final(self).options() == old(self).options(),
            old(self)@.turnstile.precedes(final(self)@.turnstile),
            final(self)@ == old(self)@.acquire(permit_count, true, cancelled, now),
            answers_waiting(
                r,
                old(self)@.entered(permit_count, now).decision(permit_count, true, cancelled),
                permit_count,
                old(self)@.turnstile.capacity,
                None,
                Some(old(self)@.entered(permit_count, now).retry_after(now)),
                old(self)@.turnstile.next_ticket,
            ),
    {
        proof {
            self.turnstile.lemma_wf();
            lemma_total_nothing(self@.turnstile.queue);
            let entered = self@.entered(permit_count, now);
            lemma_eviction_count(
                entered.turnstile.queue,
                permit_count as nat,
                entered.turnstile.queue_limit,
            );
        }
        self.acquire(permit_count, true, cancelled, now)
    }

    fn get_statistics(&self, now: Instant) -> (stats: RateLimiterStatistics)
        ensures
            stats.current_available_permits == self@.available_at(now),
    {
        self.turnstile.statistics(self.available_permits(now))
    }

    fn idle_duration(&self, now: Instant) -> (idle: Option<Duration>)
        ensures
            idle == crate::turnstile::idle_for(self@.idle_since_at(now), now),
    {
        match self.turnstile.idle_duration(now) {
            Some(idle) => Some(idle),
            None => {
                let n = self.segments.len();
                if self.turnstile.queue_is_empty() && n > 0 {
                    let newest = self.segments[n - 1];
                    proof {
                        lemma_expired_count(self@.segments, now);
                    }
                    if newest.expires_at.as_nanos() <= now.as_nanos() {
                        Some(now.saturating_duration_since(newest.expires_at))
                    } else {
                        None
                    }
                } else {
                    None
                }
            },
        }
    }
}

impl ReplenishingRateLimiter for SlidingWindowRateLimiter {
    open spec fn auto_replenishing(&self) -> bool {
        self@.auto_replenishment
    }

    fn is_auto_replenishing(&self) -> (auto: bool) {
        self.config.auto_replenishment
    }

    fn replenishment_period(&self) -> (period: Duration)
        ensures
            period@ == self@.segment_span(),
    {
        self.config.window.divided_by(self.config.segments_per_window)
    }

    fn try_replenish(&mut self, now: Instant) -> (replenished: bool)
        ensures
            final(self).options() == old(self).options(),
            old(self)@.turnstile.precedes(final(self)@.turnstile),
            final(self)@ == old(self)@.try_replenished(now),
            replenished == (!old(self)@.auto_replenishment && old(self)@.replenishment_grants(
                now,
            )),
    {
        if self.config.auto_replenishment {
            false
        } else {
            self.replenish(now)
        }
    }
}

} // verus!
