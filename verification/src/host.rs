//! A limiter together with the channels of those who wait at it.
//!
//! The host does what an operation on a limiter leaves to be done: it
//! opens a channel for a request that waits, sends every wait that ended
//! to whoever waits for it, and releases what was granted to somebody who
//! has gone.

use vstd::prelude::*;
use tokio::sync::oneshot::Receiver;
use tokio_util::sync::CancellationToken;
use crate::error::RateLimitError;
use crate::lease::{LeaseCleanup, RateLimitLease};
use crate::limiters::limiter::{Limiter, LimiterOptions, LimiterState};
use crate::statistics::RateLimiterStatistics;
use crate::time::{Duration, Instant};
use crate::traits::{RateLimiter, ReplenishingRateLimiter};
use crate::turnstile::{answers, idle_for, Acquisition, Decision};
use crate::waiters::{cancellation_set, flagged, without_tickets, Subscribers};

verus! {

/// What a waiting acquisition at a host comes to at once.
pub enum Wait {
    /// The request was decided; here is its lease.
    Ready(RateLimitLease),
    /// The request waits under this ticket. Its lease comes through the
    /// channel.
    Pending(u64, Receiver<RateLimitLease>),
}

/// Whether `after` can be what a host makes of `before`: where no wait has
/// ended nothing is to be done, and otherwise all waits that ended are
/// dealt with and the counters have not fallen.
pub open spec fn settles(before: LimiterState, after: LimiterState) -> bool {
    if before.turnstile().completions.len() == 0 {
        after == before
    } else {
        &&& before.turnstile().precedes(after.turnstile())
        &&& before.turnstile().keeps_waiters_of(after.turnstile())
        &&& after.turnstile().completions.len() == 0
    }
}

/// Whether `r` and `after` are what a waiting request for `n` permits to
/// the limiter `before` comes to, where `cancelled` says whether its
/// cancellation was found set.
pub open spec fn accords(
    r: Result<Wait, RateLimitError>,
    before: LimiterState,
    after: LimiterState,
    n: u32,
    cancelled: bool,
    now: Instant,
) -> bool {
    &&& settles(before.acquire(n, true, cancelled, now), after)
    &&& match before.decision(n, true, cancelled, now) {
        Decision::Exceeded => r matches Err(e) && e == RateLimitError::PermitCountExceeded(
            n,
            before.turnstile().capacity as u32,
        ),
        Decision::Disposed => r matches Err(e) && e == RateLimitError::Disposed,
        Decision::Cancelled => r matches Err(e) && e == RateLimitError::Cancelled,
        Decision::Grant => r matches Ok(Wait::Ready(lease)) && lease.is_success_with(
            before.cleanup_for(n),
        ),
        Decision::Reject => r matches Ok(Wait::Ready(lease)) && lease.is_failure_with(
            before.hint(n, now),
        ),
        Decision::Enqueue => r matches Ok(Wait::Pending(ticket, _)) && ticket
            == before.turnstile().next_ticket,
    }
}

/// The state of a host.
pub struct HostState {
    pub limiter: LimiterState,
    /// The tickets under which somebody is subscribed.
    pub waiting: Seq<u64>,
}

/// A limiter with the channels of those who wait at it.
pub struct LimiterHost {
    limiter: Limiter,
    subscribers: Subscribers<RateLimitLease>,
}

impl View for LimiterHost {
    type V = HostState;

    closed spec fn view(&self) -> HostState {
        HostState { limiter: self.limiter@, waiting: self.subscribers@ }
    }
}

impl LimiterHost {
    /// The options that the limiter was built from.
    pub closed spec fn options(&self) -> LimiterOptions {
        self.limiter.options()
    }

    /// What holds of the host at every moment.
    closed spec fn sound(&self) -> bool {
        &&& self.limiter.wf()
        &&& self.subscribers.wf()
    }

    /// The host is sound: its limiter is, and no wait that ended is left
    /// to be dealt with.
    pub closed spec fn wf(&self) -> bool {
        &&& self.sound()
        &&& self@.limiter.turnstile().completions.len() == 0
    }

    pub proof fn lemma_wf(&self)
        requires
            self.wf(),
        ensures
            self@.limiter.inv(),
            self@.limiter.turnstile().completions.len() == 0,
    {
        self.limiter.lemma_well_formed();
    }

    /// A host for a new limiter, idle since `now`.
    pub fn new(options: LimiterOptions, now: Instant) -> (r: Result<LimiterHost, RateLimitError>)
        ensures
            match r {
                Ok(host) => {
                    &&& options.valid()
                    &&& host.wf()
                    &&& host.options() == options
                    &&& host@ == (HostState {
                        limiter: LimiterState::initial(options, now),
                        waiting: Seq::empty(),
                    })
                },
                Err(e) => !options.valid() && e.is_invalid(options.fault()),
            },
    {
        match Limiter::new(options, now) {
            Ok(limiter) => Ok(LimiterHost { limiter, subscribers: Subscribers::new() }),
            Err(e) => Err(e),
        }
    }

    /// The limiter.
    pub fn limiter(&self) -> (limiter: &Limiter)
        requires
            self.wf(),
        ensures
            limiter.wf(),
            limiter@ == self@.limiter,
            limiter.options() == self.options(),
    {
        &self.limiter
    }

    /// Deals with the waits that ended: each is sent to whoever waits for
    /// it, and what was granted to somebody who has gone is released, which
    /// may end more waits.
    fn settle(&mut self, now: Instant)
        requires
            old(self).sound(),
        ensures
            final(self).wf(),
            final(self).options() == old(self).options(),
            settles(old(self)@.limiter, final(self)@.limiter),
            old(self)@.limiter.turnstile().precedes(final(self)@.limiter.turnstile()),
            old(self)@.limiter.turnstile().keeps_waiters_of(final(self)@.limiter.turnstile()),
            old(self)@.limiter.turnstile().completions.len() == 0 ==> final(self)@ == old(self)@,
    {
        proof {
            let q = old(self)@.limiter.turnstile().queue;
            assert forall|i: int| 0 <= i < q.len() implies q.contains(#[trigger] q[i]) by {}
        }
        let ghost mut first = true;
        loop
            invariant
                self.sound(),
                self.options() == old(self).options(),
                old(self)@.limiter.turnstile().precedes(self@.limiter.turnstile()),
                old(self)@.limiter.turnstile().keeps_waiters_of(self@.limiter.turnstile()),
                first ==> self@ == old(self)@,
                !first ==> old(self)@.limiter.turnstile().completions.len() > 0,
            ensures
                self.wf(),
                first ==> self@ == old(self)@,
            decreases
                    self@.limiter.turnstile().queue.len() + (if self@.limiter.turnstile().completions.len()
                        > 0 {
                        1nat
                    } else {
                        0nat
                    }),
        {
            proof {
                self.limiter.lemma_well_formed();
            }
            let ghost before = self@;
            let completions = self.limiter.take_completions();
            if completions.len() == 0 {
                proof {
                    assert(before.limiter.turnstile().completions =~= Seq::empty());
                    lemma_collected_nothing(before.limiter);
                }
                break ;
            }
            proof {
                first = false;
            }
            let ghost waiters = self@.limiter.turnstile().queue.len();
            let mut i: usize = 0;
            while i < completions.len()
                invariant
                    self.sound(),
                    self.options() == old(self).options(),
                    i <= completions.len(),
                    old(self)@.limiter.turnstile().precedes(self@.limiter.turnstile()),
                    old(self)@.limiter.turnstile().keeps_waiters_of(self@.limiter.turnstile()),
                    self@.limiter.backlog() <= waiters,
                    waiters <= old(self)@.limiter.turnstile().queue.len(),
                decreases completions.len() - i,
            {
                let completion = completions[i];
                let lease = completion.into_lease();
                match self.subscribers.deliver(completion.ticket, lease) {
                    None => {},
                    Some(mut back) => {
                        proof {
                            self.limiter.lemma_well_formed();
                            self@.limiter.lemma_released(back.acquired(), back.cleanup(), now);
                        }
                        self.limiter.release(&mut back, now);
                    },
                }
                i += 1;
            }
        }
    }

    /// Asks for `permit_count` permits without waiting.
    pub fn attempt_acquire(&mut self, permit_count: u32, now: Instant) -> (r: Result<
        RateLimitLease,
        RateLimitError,
    >)
        requires
            old(self).wf(),
        ensures
            final(self).wf(),
            final(self).options() == old(self).options(),
            settles(
                old(self)@.limiter.acquire(permit_count, false, false, now),
                final(self)@.limiter,
            ),
            old(self)@.limiter.acquire(permit_count, false, false, now).turnstile().completions.len()
                == 0 ==> final(self)@.waiting == old(self)@.waiting,
            answers(
                r,
                old(self)@.limiter.decision(permit_count, false, false, now),
                permit_count,
                old(self)@.limiter.turnstile().capacity,
                old(self)@.limiter.cleanup_for(permit_count),
                old(self)@.limiter.hint(permit_count, now),
            ),
    {
        let r = self.limiter.attempt_acquire(permit_count, now);
        self.settle(now);
        r
    }

    /// Asks for `permit_count` permits and is ready to wait for them while
    /// the token, if there is one, is not cancelled. A request that has to
    /// wait gets the receiving half of a channel through which its lease
    /// comes.
    pub fn acquire_async(
        &mut self,
        permit_count: u32,
        cancel_token: Option<&CancellationToken>,
        now: Instant,
    ) -> (r: Result<Wait, RateLimitError>)
        requires
            old(self).wf(),
        ensures
            final(self).wf(),
            final(self).options() == old(self).options(),
            accords(r, old(self)@.limiter, final(self)@.limiter, permit_count, false, now) || (
            cancel_token is Some && accords(
                r,
                old(self)@.limiter,
                final(self)@.limiter,
                permit_count,
                true,
                now,
            )),
    {
        let cancelled = cancellation_set(cancel_token);
        let r = self.limiter.acquire_async(permit_count, cancelled, now);
        let r = match r {
            Ok(Acquisition::Ready(lease)) => Ok(Wait::Ready(lease)),
            Ok(Acquisition::Pending(ticket)) => {
                let receiver = self.subscribers.subscribe(ticket);
                Ok(Wait::Pending(ticket, receiver))
            },
            Err(e) => Err(e),
        };
        self.settle(now);
        r
    }

    /// Ends the wait with the ticket because it was cancelled, and gives
    /// the error that the request ends with. A waiter that is still in the
    /// queue leaves it. Where the wait had ended first, what it was granted
    /// is released.
    pub fn cancel(&mut self, ticket: u64, receiver: Receiver<RateLimitLease>, now: Instant) -> (e:
        RateLimitError)
        requires
            old(self).wf(),
        ensures
            final(self).wf(),
            final(self).options() == old(self).options(),
            e == RateLimitError::Cancelled,
            old(self)@.limiter.turnstile().precedes(final(self)@.limiter.turnstile()),
            old(self)@.limiter.turnstile().holds(ticket) ==> settles(
                old(self)@.limiter.cancelled(ticket, now),
                final(self)@.limiter,
            ),
            !final(self)@.limiter.turnstile().holds(ticket),
    {
        let mut receiver = receiver;
        let _ = self.subscribers.unsubscribe(ticket);
        proof {
            self.limiter.lemma_well_formed();
            lemma_cancelled(self@.limiter, ticket, now);
        }
        let found = self.limiter.cancel(ticket, now);
        if !found {
            match receiver.try_recv() {
                Ok(mut lease) => {
                    let ghost cancelled = self@.limiter;
                    proof {
                        self.limiter.lemma_well_formed();
                        cancelled.lemma_released(lease.acquired(), lease.cleanup(), now);
                    }
                    self.limiter.release(&mut lease, now);
                    proof {
                        lemma_kept_without(
                            cancelled.turnstile(),
                            self@.limiter.turnstile(),
                            ticket,
                        );
                    }
                },
                Err(_) => {},
            }
        }
        let ghost middle = self@.limiter;
        self.settle(now);
        proof {
            lemma_kept_without(middle.turnstile(), self@.limiter.turnstile(), ticket);
        }
        RateLimitError::Cancelled
    }

    /// Releases a lease and deals with the waits that this ends.
    pub fn release(&mut self, lease: &mut RateLimitLease, now: Instant)
        requires
            old(self).wf(),
        ensures
            final(self).wf(),
            final(self).options() == old(self).options(),
            settles(
                old(self)@.limiter.released(old(lease).acquired(), old(lease).cleanup(), now),
                final(self)@.limiter,
            ),
            final(lease).cleanup() is None,
            final(lease).acquired() == old(lease).acquired(),
            final(lease).metadata() == old(lease).metadata(),
    {
        self.limiter.release(lease, now);
        self.settle(now);
    }

    /// Replenishes the limiter at `now`, as its timer does, and deals with
    /// the waits that this ends.
    pub fn replenish(&mut self, now: Instant)
        requires
            old(self).wf(),
        ensures
            final(self).wf(),
            final(self).options() == old(self).options(),
            settles(old(self)@.limiter.replenished(now), final(self)@.limiter),
    {
        self.limiter.replenish(now);
        self.settle(now);
    }

    /// Replenishes the limiter by hand and deals with the waits that this
    /// ends. Where a timer replenishes the limiter this does nothing and
    /// the answer is `false`.
    pub fn try_replenish(&mut self, now: Instant) -> (replenished: bool)
        requires
            old(self).wf(),
        ensures
            final(self).wf(),
            final(self).options() == old(self).options(),
            settles(old(self)@.limiter.try_replenished(now), final(self)@.limiter),
            replenished == old(self)@.limiter.try_replenish_answer(now),
            old(self)@.limiter.timed() ==> !replenished && final(self)@ == old(self)@,
    {
        let replenished = self.limiter.try_replenish(now);
        self.settle(now);
        replenished
    }

    /// Disposes the limiter and sends every waiter away.
    pub fn dispose(&mut self, now: Instant)
        requires
            old(self).wf(),
        ensures
            final(self).wf(),
            final(self).options() == old(self).options(),
            settles(old(self)@.limiter.disposed(now), final(self)@.limiter),
            final(self)@.limiter.turnstile().disposed,
            final(self)@.limiter.turnstile().queue.len() == 0,
    {
        self.limiter.dispose(now);
        proof {
            self.limiter.lemma_well_formed();
        }
        self.settle(now);
    }

    /// Marks the waiters with the given tickets as abandoned, so that they
    /// leave the queue when their turn comes, and drops the channels that
    /// are kept for the tickets.
    pub fn abandon_all(&mut self, tickets: &Vec<u64>)
        requires
            old(self).wf(),
        ensures
            final(self).wf(),
            final(self).options() == old(self).options(),
            final(self)@.limiter == abandoned_all(old(self)@.limiter, tickets@),
            final(self)@.waiting == without_tickets(old(self)@.waiting, tickets@),
    {
        let mut i: usize = 0;
        proof {
            assert(tickets@.subrange(0, 0) =~= Seq::<u64>::empty());
        }
        while i < tickets.len()
            invariant
                self.wf(),
                self.options() == old(self).options(),
                i <= tickets.len(),
                self@.limiter == abandoned_all(old(self)@.limiter, tickets@.subrange(0, i as int)),
                self@.waiting == without_tickets(
                    old(self)@.waiting,
                    tickets@.subrange(0, i as int),
                ),
            decreases tickets.len() - i,
        {
            let ticket = tickets[i];
            let _ = self.limiter.abandon(ticket);
            let _ = self.subscribers.unsubscribe(ticket);
            proof {
                assert(tickets@.subrange(0, i + 1).drop_last() =~= tickets@.subrange(0, i as int));
                assert(tickets@.subrange(0, i + 1).last() == ticket);
                lemma_abandoned_keeps_completions(
                    abandoned_all(old(self)@.limiter, tickets@.subrange(0, i as int)),
                    ticket,
                );
            }
            i += 1;
        }
        proof {
            assert(tickets@.subrange(0, i as int) =~= tickets@);
        }
    }

    /// Marks the waiters whose receiving half is gone as abandoned, so that
    /// they leave the queue when their turn comes, drops the channels that
    /// are kept for them, and gives their tickets in the order in which
    /// they began to wait. Which of the receiving halves are gone is for
    /// the channels to say; what is done with the tickets is what
    /// `abandon_all` does.
    pub fn sweep(&mut self) -> (gone: Vec<u64>)
        requires
            old(self).wf(),
        ensures
            final(self).wf(),
            final(self).options() == old(self).options(),
            exists|flags: Seq<bool>|
                flags.len() == old(self)@.waiting.len() && gone@ == #[trigger] flagged(
                    old(self)@.waiting,
                    flags,
                ),
            final(self)@.limiter == abandoned_all(old(self)@.limiter, gone@),
            final(self)@.waiting == without_tickets(old(self)@.waiting, gone@),
            forall|i: int| 0 <= i < gone@.len() ==> old(self)@.waiting.contains(
                #[trigger] gone@[i],
            ),
    {
        let gone = self.subscribers.closed();
        self.abandon_all(&gone);
        gone
    }

    /// The counters at `now`.
    pub fn get_statistics(&self, now: Instant) -> (stats: RateLimiterStatistics)
        requires
            self.wf(),
        ensures
            stats.current_available_permits == self@.limiter.available_at(now),
            stats.current_queued_count == self@.limiter.turnstile().queued(),
            stats.total_successful_leases == self@.limiter.turnstile().successful,
            stats.total_failed_leases == self@.limiter.turnstile().failed,
    {
        self.limiter.get_statistics(now)
    }

    /// For how long the limiter has been idle at `now`, if it is.
    pub fn idle_duration(&self, now: Instant) -> (idle: Option<Duration>)
        requires
            self.wf(),
        ensures
            idle == idle_for(self@.limiter.idle_since_at(now), now),
    {
        self.limiter.idle_duration(now)
    }
}

/// The limiter after the waiters with the given tickets went away, one
/// after the other.
pub open spec fn abandoned_all(state: LimiterState, tickets: Seq<u64>) -> LimiterState
    decreases tickets.len(),
{
    if tickets.len() == 0 {
        state
    } else {
        abandoned_all(state, tickets.drop_last()).abandoned(tickets.last())
    }
}

/// Collecting from a limiter that has nothing to collect changes nothing.
proof fn lemma_collected_nothing(state: LimiterState)
    requires
        state.turnstile().completions == Seq::<crate::turnstile::Completion>::empty(),
    ensures
        state.collected() == state,
{
}

/// Marking a waiter as abandoned ends no wait.
proof fn lemma_abandoned_keeps_completions(state: LimiterState, ticket: u64)
    ensures
        state.abandoned(ticket).turnstile().completions == state.turnstile().completions,
{
}

/// A cancellation takes the waiter out, ends no wait, and lets no counter
/// fall.
proof fn lemma_cancelled(state: LimiterState, ticket: u64, now: Instant)
    requires
        state.inv(),
    ensures
        state.turnstile().precedes(state.cancelled(ticket, now).turnstile()),
        state.cancelled(ticket, now).turnstile().completions == state.turnstile().completions,
        !state.cancelled(ticket, now).turnstile().holds(ticket),
        state.cancelled(ticket, now).turnstile().queue.len() <= state.turnstile().queue.len(),
{
    let q = state.turnstile().queue;
    crate::queue::lemma_position_of(q, ticket);
    if state.turnstile().holds(ticket) {
        let at = crate::queue::position_of(q, ticket) as int;
        let after = q.remove(at);
        assert forall|i: int| 0 <= i < after.len() implies (#[trigger] after[i]).ticket != ticket by {
            if i < at {
                assert(after[i] == q[i]);
            } else {
                assert(after[i] == q[i + 1]);
                assert(q[at].ticket < q[i + 1].ticket);
            }
        }
        lemma_absent(after, ticket);
    }
}

/// A ticket that no waiter has is not held.
proof fn lemma_absent(q: Seq<crate::queue::Waiter>, ticket: u64)
    requires
        forall|i: int| 0 <= i < q.len() ==> (#[trigger] q[i]).ticket != ticket,
    ensures
        crate::queue::position_of(q, ticket) == q.len(),
{
    crate::queue::lemma_position_found(q, ticket, q.len() as int);
}

/// Where everybody who waits later waited before, a ticket that nobody
/// had before is a ticket that nobody has later.
proof fn lemma_kept_without(
    before: crate::turnstile::TurnstileState,
    after: crate::turnstile::TurnstileState,
    ticket: u64,
)
    requires
        !before.holds(ticket),
        before.keeps_waiters_of(after),
    ensures
        !after.holds(ticket),
{
    crate::queue::lemma_position_of(before.queue, ticket);
    assert forall|i: int| 0 <= i < after.queue.len() implies (#[trigger] after.queue[i]).ticket
        != ticket by {
        let w = after.queue[i];
        assert(before.queue.contains(w));
        let j = choose|j: int| 0 <= j < before.queue.len() && before.queue[j] == w;
        assert(before.queue[j].ticket != ticket);
    }
    lemma_absent(after.queue, ticket);
}

} // verus!
