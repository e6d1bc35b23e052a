//! A chain together with the channels of those who wait at its members.

use vstd::prelude::*;
use tokio::sync::oneshot::Receiver;
use tokio_util::sync::CancellationToken;
use crate::error::RateLimitError;
use crate::host::settles;
use crate::lease::RateLimitLease;
use crate::limiters::chained::{
    chain_answers, chain_answers_waiting, is_chain_lease, is_refusal, lemma_passed,
    lemma_released_back_len, passed, released_all, released_back, ChainAcquisition, ChainProgress, ChainedRateLimiter,
    Passage,
};
use crate::limiters::limiter::{Limiter, LimiterState};
use crate::lease::LeaseCleanup;
use crate::statistics::RateLimiterStatistics;
use crate::time::{Duration, Instant};
use crate::traits::RateLimiter;
use crate::turnstile::{Completion, Decision};
use crate::waiters::{cancellation_set, Subscribers};

verus! {

/// What a waiting acquisition at a chain comes to at once.
pub enum ChainWait {
    /// The request was decided; here is its lease.
    Ready(RateLimitLease),
    /// The request waits at a member. The end of its wait comes through
    /// the channel and is to be handed to `resume`.
    Pending(ChainProgress, Receiver<Completion>),
}

/// Whether each member of `after` can be what a host makes of the member of
/// `before` at its place.
pub open spec fn all_settle(before: Seq<LimiterState>, after: Seq<LimiterState>) -> bool {
    &&& after.len() == before.len()
    &&& forall|i: int| 0 <= i < before.len() ==> settles(before[i], #[trigger] after[i])
}

/// What `chain_answers_waiting` says of a request, told of a host's answer.
pub open spec fn host_answers(
    r: Result<ChainWait, RateLimitError>,
    states: Seq<LimiterState>,
    passage: Passage,
    n: u32,
    cancelled: bool,
    now: Instant,
) -> bool {
    match passage.stopped_at {
        None => r matches Ok(ChainWait::Ready(lease)) && is_chain_lease(lease, states, n),
        Some(at) => match states[at].decision(n, true, cancelled, now) {
            Decision::Enqueue => r matches Ok(ChainWait::Pending(progress, _)) && {
                &&& progress.permits() == n
                &&& progress.index() == at
                &&& progress.ticket() == states[at].turnstile().next_ticket
            },
            Decision::Reject => r matches Ok(ChainWait::Ready(lease)) && is_refusal(
                lease,
                states[at].hint(n, now),
                at,
            ),
            Decision::Exceeded => r matches Err(e) && e == RateLimitError::PermitCountExceeded(
                n,
                states[at].turnstile().capacity as u32,
            ),
            Decision::Disposed => r matches Err(e) && e == RateLimitError::Disposed,
            Decision::Cancelled => r matches Err(e) && e == RateLimitError::Cancelled,
            Decision::Grant => false,
        },
    }
}

/// Whether `r` and `after` are what a waiting request for `n` permits to
/// the chain `before` comes to, where `cancelled` says whether its
/// cancellation was found set.
pub open spec fn chain_accords(
    r: Result<ChainWait, RateLimitError>,
    before: Seq<LimiterState>,
    after: Seq<LimiterState>,
    from: int,
    n: u32,
    cancelled: bool,
    now: Instant,
) -> bool {
    &&& all_settle(passed(before, from, n, true, cancelled, now).states, after)
    &&& host_answers(r, before, passed(before, from, n, true, cancelled, now), n, cancelled, now)
}

/// A chain with the channels of those who wait at its members.
pub struct ChainHost {
    chain: ChainedRateLimiter,
    subscribers: Vec<Subscribers<Completion>>,
}

impl View for ChainHost {
    type V = Seq<LimiterState>;

    /// The states of the members, in their order.
    closed spec fn view(&self) -> Seq<LimiterState> {
        self.chain@
    }
}

impl ChainHost {
    /// What holds of the host at every moment.
    closed spec fn sound(&self) -> bool {
        &&& self.chain.wf()
        &&& self.subscribers@.len() == self.chain@.len()
        &&& forall|i: int| 0 <= i < self.subscribers@.len() ==> (#[trigger] self.subscribers@[i]).wf()
    }

    /// The waits that ended at the first `upto` members are dealt with.
    closed spec fn settled_upto(&self, upto: int) -> bool {
        forall|i: int|
            0 <= i < upto && i < self@.len() ==> (#[trigger] self@[i]).turnstile().completions.len()
                == 0
    }

    /// The host is sound: its chain is, and no wait that ended is left to
    /// be dealt with.
    pub closed spec fn wf(&self) -> bool {
        &&& self.sound()
        &&& self.settled_upto(self@.len() as int)
    }

    pub proof fn lemma_wf(&self)
        requires
            self.wf(),
        ensures
            self@.len() >= 1,
            forall|i: int|
                0 <= i < self@.len() ==> (#[trigger] self@[i]).inv()
                    && self@[i].turnstile().completions.len() == 0,
    {
        self.chain.lemma_wf();
    }

    /// Whether the progress can be one of this chain.
    pub open spec fn fits(&self, progress: ChainProgress) -> bool {
        crate::limiters::chained::holds_leases(
            progress.held(),
            self@,
            progress.index(),
            progress.permits(),
        ) && progress.index() < self@.len()
    }

    /// A host for a chain of the given limiters, which have to be at least
    /// one. Waits that ended at them before are dealt with as waits that
    /// nobody takes on.
    pub fn new(limiters: Vec<Limiter>, now: Instant) -> (r: Result<ChainHost, RateLimitError>)
        requires
            forall|i: int| 0 <= i < limiters@.len() ==> (#[trigger] limiters@[i]).wf(),
        ensures
            match r {
                Ok(host) => {
                    &&& limiters@.len() >= 1
                    &&& host.wf()
                    &&& all_settle(Seq::new(limiters@.len(), |i: int| limiters@[i]@), host@)
                },
                Err(e) => limiters@.len() == 0 && e.is_invalid("Must provide at least 1 limiter"@),
            },
    {
        match ChainedRateLimiter::new(limiters) {
            Ok(chain) => {
                let mut subscribers: Vec<Subscribers<Completion>> = Vec::new();
                let mut i: usize = 0;
                while i < chain.limiter_count()
                    invariant
                        i <= chain@.len(),
                        subscribers@.len() == i,
                        forall|j: int| 0 <= j < i ==> (#[trigger] subscribers@[j]).wf(),
                    decreases chain@.len() - i,
                {
                    subscribers.push(Subscribers::new());
                    i += 1;
                }
                let mut host = ChainHost { chain, subscribers };
                host.settle(now);
                Ok(host)
            },
            Err(e) => Err(e),
        }
    }

    /// How many members the chain has.
    pub fn limiter_count(&self) -> (count: usize)
        ensures
            count == self@.len(),
    {
        self.chain.limiter_count()
    }

    /// The member at `index`, if there is one.
    pub fn limiter(&self, index: usize) -> (member: Option<&Limiter>)
        requires
            self.wf(),
        ensures
            match member {
                Some(limiter) => index < self@.len() && limiter.wf() && limiter@
                    == self@[index as int],
                None => index >= self@.len(),
            },
    {
        self.chain.limiter(index)
    }

    /// Deals with the waits that ended at the member at `at`: each is sent
    /// to whoever waits for it, and what was granted to somebody who has
    /// gone is released, which may end more waits there.
    fn settle_member(&mut self, at: usize, now: Instant)
        requires
            old(self).sound(),
            at < old(self)@.len(),
        ensures
            final(self).sound(),
            final(self)@.len() == old(self)@.len(),
            settles(old(self)@[at as int], final(self)@[at as int]),
            final(self)@[at as int].turnstile().completions.len() == 0,
            forall|j: int|
                0 <= j < final(self)@.len() && j != at ==> #[trigger] final(self)@[j] == old(
                    self,
                )@[j],
    {
        let ghost mut first = true;
        let ghost start = self@[at as int];
        proof {
            self.chain.lemma_wf();
            let q = start.turnstile().queue;
            assert forall|i: int| 0 <= i < q.len() implies q.contains(#[trigger] q[i]) by {}
        }
        loop
            invariant
                self.sound(),
                at < self@.len(),
                self@.len() == old(self)@.len(),
                start == old(self)@[at as int],
                start.turnstile().precedes(self@[at as int].turnstile()),
                start.turnstile().keeps_waiters_of(self@[at as int].turnstile()),
                first ==> self@[at as int] == start,
                !first ==> start.turnstile().completions.len() > 0,
                forall|j: int|
                    0 <= j < self@.len() && j != at ==> #[trigger] self@[j] == old(self)@[j],
            ensures
                self@[at as int].turnstile().completions.len() == 0,
                first ==> self@[at as int] == start,
            decreases
                    self@[at as int].turnstile().queue.len() + (if self@[at
                        as int].turnstile().completions.len() > 0 {
                        1nat
                    } else {
                        0nat
                    }),
        {
            let ghost before = self@;
            let completions = self.chain.take_completions(at);
            if completions.len() == 0 {
                proof {
                    assert(before[at as int].turnstile().completions =~= Seq::empty());
                    lemma_nothing_collected(before[at as int]);
                    assert(self@ =~= before);
                }
                break ;
            }
            proof {
                first = false;
            }
            let ghost waiters = self@[at as int].turnstile().queue.len();
            let mut i: usize = 0;
            while i < completions.len()
                invariant
                    self.sound(),
                    at < self@.len(),
                    self@.len() == old(self)@.len(),
                    i <= completions.len(),
                    start.turnstile().precedes(self@[at as int].turnstile()),
                    start.turnstile().keeps_waiters_of(self@[at as int].turnstile()),
                    self@[at as int].backlog() <= waiters,
                    forall|j: int|
                        0 <= j < self@.len() && j != at ==> #[trigger] self@[j] == old(self)@[j],
                decreases completions.len() - i,
            {
                let completion = completions[i];
                match self.subscribers[at].deliver(completion.ticket, completion) {
                    None => {},
                    Some(back) => {
                        proof {
                            self.chain.lemma_wf();
                            self@[at as int].lemma_released(back.granted(), back.cleanup(), now);
                        }
                        self.chain.discard(at, back, now);
                    },
                }
                i += 1;
            }
        }
    }

    /// Deals with the waits that ended at any member.
    fn settle(&mut self, now: Instant)
        requires
            old(self).sound(),
        ensures
            final(self).wf(),
            all_settle(old(self)@, final(self)@),
    {
        let mut at: usize = 0;
        while at < self.chain.limiter_count()
            invariant
                self.sound(),
                at <= self@.len(),
                self@.len() == old(self)@.len(),
                self.settled_upto(at as int),
                forall|j: int| 0 <= j < at ==> settles(old(self)@[j], #[trigger] self@[j]),
                forall|j: int| at <= j < self@.len() ==> #[trigger] self@[j] == old(self)@[j],
            decreases self@.len() - at,
        {
            self.settle_member(at, now);
            at += 1;
        }
    }

    /// Asks every member for `permit_count` permits without waiting.
    pub fn attempt_acquire(&mut self, permit_count: u32, now: Instant) -> (r: Result<
        RateLimitLease,
        RateLimitError,
    >)
        requires
            old(self).wf(),
        ensures
            final(self).wf(),
            all_settle(passed(old(self)@, 0, permit_count, false, false, now).states, final(self)@),
            chain_answers(
                r,
                old(self)@,
                passed(old(self)@, 0, permit_count, false, false, now),
                permit_count,
                false,
                false,
                now,
            ),
    {
        let r = self.chain.attempt_acquire(permit_count, now);
        self.settle(now);
        r
    }

    /// Keeps the channel of a request that waits.
    fn subscribe(&mut self, r: Result<ChainAcquisition, RateLimitError>) -> (w: Result<
        ChainWait,
        RateLimitError,
    >)
        requires
            old(self).sound(),
            r matches Ok(ChainAcquisition::Pending(progress)) ==> old(self).fits(progress),
        ensures
            final(self).sound(),
            final(self)@ == old(self)@,
            match r {
                Ok(ChainAcquisition::Ready(lease)) => w matches Ok(ChainWait::Ready(same)) && same
                    == lease,
                Ok(ChainAcquisition::Pending(progress)) => w matches Ok(
                    ChainWait::Pending(same, _),
                ) && same == progress,
                Err(e) => w matches Err(same) && same == e,
            },
    {
        match r {
            Ok(ChainAcquisition::Ready(lease)) => Ok(ChainWait::Ready(lease)),
            Ok(ChainAcquisition::Pending(progress)) => {
                let at = progress.waits_at();
                let receiver = self.subscribers[at].subscribe(progress.waits_for());
                Ok(ChainWait::Pending(progress, receiver))
            },
            Err(e) => Err(e),
        }
    }

    /// Asks every member for `permit_count` permits and is ready to wait at
    /// each while the token, if there is one, is not cancelled.
    pub fn acquire_async(
        &mut self,
        permit_count: u32,
        cancel_token: Option<&CancellationToken>,
        now: Instant,
    ) -> (r: Result<ChainWait, RateLimitError>)
        requires
            old(self).wf(),
        ensures
            final(self).wf(),
            chain_accords(r, old(self)@, final(self)@, 0, permit_count, false, now) || (
            cancel_token is Some && chain_accords(
                r,
                old(self)@,
                final(self)@,
                0,
                permit_count,
                true,
                now,
            )),
    {
        let cancelled = cancellation_set(cancel_token);
        let r = self.chain.acquire_async(permit_count, cancelled, now);
        let w = self.subscribe(r);
        self.settle(now);
        w
    }

    /// Takes a request on whose wait at a member has ended with the given
    /// completion, as `ChainedRateLimiter::resume` does.
    pub fn resume(
        &mut self,
        progress: ChainProgress,
        completion: Completion,
        cancel_token: Option<&CancellationToken>,
        now: Instant,
    ) -> (r: Result<ChainWait, RateLimitError>)
        requires
            old(self).wf(),
            old(self).fits(progress),
        ensures
            final(self).wf(),
            ({
                let at = progress.index();
                let n = progress.permits();
                match completion.outcome {
                    crate::turnstile::WaitOutcome::Granted { refund } => if completion.cleanup()
                        == old(self)@[at].cleanup_for(n) {
                        chain_accords(r, old(self)@, final(self)@, at + 1, n, false, now) || (
                        cancel_token is Some && chain_accords(
                            r,
                            old(self)@,
                            final(self)@,
                            at + 1,
                            n,
                            true,
                            now,
                        ))
                    } else {
                        &&& all_settle(
                            released_back(
                                old(self)@.update(
                                    at,
                                    old(self)@[at].released(true, completion.cleanup(), now),
                                ),
                                at,
                                n,
                                now,
                            ),
                            final(self)@,
                        )
                        &&& r matches Err(e) && e.is_invalid("the completion is of another wait"@)
                    },
                    crate::turnstile::WaitOutcome::Failed { retry_after } => {
                        &&& all_settle(released_back(old(self)@, at, n, now), final(self)@)
                        &&& r matches Ok(ChainWait::Ready(lease)) && is_refusal(
                            lease,
                            retry_after,
                            at,
                        )
                    },
                }
            }),
    {
        let cancelled = cancellation_set(cancel_token);
        let ghost at = progress.index();
        let ghost n = progress.permits();
        let r = self.chain.resume(progress, completion, cancelled, now);
        proof {
            lemma_released_back_len(old(self)@, at, n, now);
            lemma_released_back_len(
                old(self)@.update(at, old(self)@[at].released(true, completion.cleanup(), now)),
                at,
                n,
                now,
            );
        }
        let w = self.subscribe(r);
        self.settle(now);
        w
    }

    /// Ends a wait at a member because the request was cancelled, and gives
    /// the error that the request ends with. A waiter that is still in the
    /// member's queue leaves it, and the leases of the members before it
    /// are released. Where the wait had ended first, the request is taken
    /// on as cancelled and whatever it gets is released.
    pub fn cancel(&mut self, progress: ChainProgress, receiver: Receiver<Completion>, now: Instant) -> (e:
        RateLimitError)
        requires
            old(self).wf(),
            old(self).fits(progress),
        ensures
            final(self).wf(),
            final(self)@.len() == old(self)@.len(),
            e == RateLimitError::Cancelled,
            old(self)@[progress.index()].turnstile().holds(progress.ticket()) ==> all_settle(
                released_back(
                    old(self)@.update(
                        progress.index(),
                        old(self)@[progress.index()].cancelled(progress.ticket(), now),
                    ),
                    progress.index(),
                    progress.permits(),
                    now,
                ),
                final(self)@,
            ),
    {
        let mut receiver = receiver;
        let at = progress.waits_at();
        let ticket = progress.waits_for();
        let _ = self.subscribers[at].unsubscribe(ticket);
        proof {
            lemma_released_back_len(
                old(self)@.update(
                    progress.index(),
                    old(self)@[progress.index()].cancelled(progress.ticket(), now),
                ),
                progress.index(),
                progress.permits(),
                now,
            );
        }
        match self.chain.cancel(progress, now) {
            None => {},
            Some(progress) => {
                match receiver.try_recv() {
                    Ok(completion) => {
                        proof {
                            let at = progress.index();
                            let n = progress.permits();
                            lemma_passed(self@, at + 1, n, true, true, now);
                            let p = passed(self@, at + 1, n, true, true, now);
                            if let Some(stop) = p.stopped_at {
                                self@[stop].lemma_decision(n, true, true, now);
                            }
                        }
                        match self.chain.resume(progress, completion, true, now) {
                            Ok(ChainAcquisition::Ready(mut lease)) => {
                                self.chain.release(&mut lease, now);
                            },
                            Ok(ChainAcquisition::Pending(_)) => {
                                // A cancelled request never joins a queue.
                                assert(false);
                            },
                            Err(_) => {},
                        }
                    },
                    Err(_) => {
                        self.chain.abort(progress, now);
                    },
                }
            },
        }
        self.settle(now);
        RateLimitError::Cancelled
    }

    /// Releases a lease of the chain and deals with the waits that this
    /// ends.
    pub fn release(&mut self, lease: &mut RateLimitLease, now: Instant)
        requires
            old(self).wf(),
        ensures
            final(self).wf(),
            all_settle(
                match old(lease).cleanup() {
                    Some(LeaseCleanup::Leases(inner)) => if old(lease).acquired() {
                        released_all(old(self)@, inner@, now)
                    } else {
                        old(self)@
                    },
                    _ => old(self)@,
                },
                final(self)@,
            ),
            final(lease).cleanup() is None,
            final(lease).acquired() == old(lease).acquired(),
            final(lease).metadata() == old(lease).metadata(),
    {
        self.chain.release(lease, now);
        self.settle(now);
    }

    /// Replenishes every member at `now`, as their timers do, and deals
    /// with the waits that this ends.
    pub fn replenish(&mut self, now: Instant)
        requires
            old(self).wf(),
        ensures
            final(self).wf(),
            all_settle(
                Seq::new(old(self)@.len(), |i: int| old(self)@[i].replenished(now)),
                final(self)@,
            ),
    {
        self.chain.replenish(now);
        self.settle(now);
    }

    /// Disposes every member at `now` and sends every waiter away.
    pub fn dispose(&mut self, now: Instant)
        requires
            old(self).wf(),
        ensures
            final(self).wf(),
            all_settle(
                Seq::new(old(self)@.len(), |i: int| old(self)@[i].disposed(now)),
                final(self)@,
            ),
    {
        self.chain.dispose(now);
        self.settle(now);
    }

    /// What the chain reports at `now`.
    pub fn get_statistics(&self, now: Instant) -> (stats: RateLimiterStatistics)
        requires
            self.wf(),
        ensures
            forall|i: int|
                0 <= i < self@.len() ==> stats.current_available_permits <= (
                #[trigger] self@[i]).available_at(now),
            exists|i: int|
                0 <= i < self@.len() && stats.current_available_permits == (
                #[trigger] self@[i]).available_at(now),
            forall|i: int|
                0 <= i < self@.len() ==> stats.current_queued_count >= (
                #[trigger] self@[i]).turnstile().queued(),
            exists|i: int|
                0 <= i < self@.len() && stats.current_queued_count == (
                #[trigger] self@[i]).turnstile().queued(),
            stats.total_successful_leases == crate::statistics::clamp_count(
                crate::limiters::chained::total_successful(self@, self@.len() as int),
            ),
            stats.total_failed_leases == crate::statistics::clamp_count(
                crate::limiters::chained::total_failed(self@, self@.len() as int),
            ),
    {
        self.chain.get_statistics(now)
    }

    /// For how long the whole chain has been idle at `now`, as
    /// `ChainedRateLimiter::idle_duration` says.
    pub fn idle_duration(&self, now: Instant) -> (idle: Option<Duration>)
        requires
            self.wf(),
        ensures
            idle is Some <==> forall|i: int|
                0 <= i < self@.len() ==> crate::turnstile::idle_for(
                    (#[trigger] self@[i]).idle_since_at(now),
                    now,
                ) is Some,
            idle matches Some(shortest) ==> {
                &&& forall|i: int|
                    0 <= i < self@.len() ==> shortest@ <= crate::turnstile::idle_for(
                        (#[trigger] self@[i]).idle_since_at(now),
                        now,
                    )->0@
                &&& exists|i: int|
                    0 <= i < self@.len() && Some(shortest) == crate::turnstile::idle_for(
                        (#[trigger] self@[i]).idle_since_at(now),
                        now,
                    )
            },
    {
        self.chain.idle_duration(now)
    }
}

/// Collecting from a limiter that has nothing to collect changes nothing.
proof fn lemma_nothing_collected(state: LimiterState)
    requires
        state.turnstile().completions == Seq::<Completion>::empty(),
    ensures
        state.collected() == state,
{
}

} // verus!
