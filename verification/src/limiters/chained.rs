//! The chain: several limiters that all have to say yes.

use vstd::prelude::*;
use crate::error::RateLimitError;
use crate::turnstile::{idle_for, Acquisition, Completion, Decision, WaitOutcome};
use crate::lease::{retry_metadata, LeaseCleanup, RateLimitLease};
use crate::limiters::limiter::{Limiter, LimiterState};
use crate::metadata::{MetadataName, MetadataValue};
use crate::statistics::{clamp_count, RateLimiterStatistics};
use crate::time::{Duration, Instant};
use crate::traits::RateLimiter;

verus! {

/// The members after the leases that the first `upto` of them granted for
/// `n` permits were released, the last one first.
pub open spec fn released_back(
    states: Seq<LimiterState>,
    upto: int,
    n: u32,
    now: Instant,
) -> Seq<LimiterState>
    decreases upto,
{
    if upto <= 0 || upto > states.len() {
        states
    } else {
        released_back(
            states.update(
                upto - 1,
                states[upto - 1].released(true, states[upto - 1].cleanup_for(n), now),
            ),
            upto - 1,
            n,
            now,
        )
    }
}

/// The members after the given leases were released, the last one first,
/// each to the member at its place.
pub open spec fn released_all(
    states: Seq<LimiterState>,
    leases: Seq<RateLimitLease>,
    now: Instant,
) -> Seq<LimiterState>
    decreases leases.len(),
{
    if leases.len() == 0 {
        states
    } else {
        let at = leases.len() - 1;
        let next = if at < states.len() {
            states.update(at, states[at].released(leases[at].acquired(), leases[at].cleanup(), now))
        } else {
            states
        };
        released_all(next, leases.drop_last(), now)
    }
}

/// Whether `held` are the leases that the first `upto` members granted for
/// `n` permits.
pub open spec fn holds_leases(
    held: Seq<RateLimitLease>,
    states: Seq<LimiterState>,
    upto: int,
    n: u32,
) -> bool {
    &&& held.len() == upto
    &&& 0 <= upto <= states.len()
    &&& forall|j: int| 0 <= j < upto ==> (#[trigger] held[j]).is_success_with(states[j].cleanup_for(
        n,
    ))
}

/// Releasing the leases that the members granted is releasing back.
pub proof fn lemma_released_all(
    states: Seq<LimiterState>,
    held: Seq<RateLimitLease>,
    n: u32,
    now: Instant,
)
    requires
        holds_leases(held, states, held.len() as int, n),
    ensures
        released_all(states, held, now) == released_back(states, held.len() as int, n, now),
    decreases held.len(),
{
    if held.len() > 0 {
        let at = held.len() - 1;
        let next = states.update(
            at,
            states[at].released(true, states[at].cleanup_for(n), now),
        );
        assert(held[at].is_success_with(states[at].cleanup_for(n)));
        assert forall|j: int| 0 <= j < at implies (#[trigger] held.drop_last()[j]).is_success_with(
            next[j].cleanup_for(n),
        ) by {
            assert(held.drop_last()[j] == held[j]);
        }
        lemma_released_all(next, held.drop_last(), n, now);
    }
}

/// A request leaves a limiter of the kind that it was.
pub proof fn lemma_same_kind(
    state: LimiterState,
    n: u32,
    waiting: bool,
    cancelled: bool,
    now: Instant,
)
    ensures
        forall|m: u32| #[trigger]
            state.acquire(n, waiting, cancelled, now).cleanup_for(m) == state.cleanup_for(m),
{
    reveal(LimiterState::acquire);
}

/// Leases that the members granted are still theirs where members changed
/// but stayed of their kind.
pub proof fn lemma_holds_after(
    held: Seq<RateLimitLease>,
    before: Seq<LimiterState>,
    after: Seq<LimiterState>,
    upto: int,
    n: u32,
)
    requires
        holds_leases(held, before, upto, n),
        after.len() == before.len(),
        forall|j: int| 0 <= j < after.len() ==> (#[trigger] after[j]).cleanup_for(n) == before[j].cleanup_for(n),
    ensures
        holds_leases(held, after, upto, n),
{
}

/// Releasing leases leaves as many members as there were.
pub proof fn lemma_released_back_len(states: Seq<LimiterState>, upto: int, n: u32, now: Instant)
    ensures
        released_back(states, upto, n, now).len() == states.len(),
    decreases upto,
{
    if !(upto <= 0 || upto > states.len()) {
        lemma_released_back_len(
            states.update(
                upto - 1,
                states[upto - 1].released(true, states[upto - 1].cleanup_for(n), now),
            ),
            upto - 1,
            n,
            now,
        );
    }
}

/// How a request got through a chain.
pub struct Passage {
    /// The members afterwards.
    pub states: Seq<LimiterState>,
    /// The member at which the request stopped, if it did not pass all.
    pub stopped_at: Option<int>,
}

/// A request for `n` permits that passes the members from `from` on, one
/// after the other. A member that grants lets it on to the next. A member
/// that queues it keeps it there, and what the members before it granted
/// stays out. At a member that turns it down, or meets it with an error, it
/// stops, and what the members before it granted is released, the last
/// lease first.
pub open spec fn passed(
    states: Seq<LimiterState>,
    from: int,
    n: u32,
    waiting: bool,
    cancelled: bool,
    now: Instant,
) -> Passage
    decreases states.len() - from,
{
    if from < 0 || from >= states.len() {
        Passage { states, stopped_at: None }
    } else {
        let next = states.update(from, states[from].acquire(n, waiting, cancelled, now));
        match states[from].decision(n, waiting, cancelled, now) {
            Decision::Grant => passed(next, from + 1, n, waiting, cancelled, now),
            Decision::Enqueue => Passage { states: next, stopped_at: Some(from) },
            _ => Passage { states: released_back(next, from, n, now), stopped_at: Some(from) },
        }
    }
}

/// What releasing back does to each member: the first `upto` release the
/// lease that they granted, the others stay as they are.
pub proof fn lemma_released_back(states: Seq<LimiterState>, upto: int, n: u32, now: Instant)
    requires
        0 <= upto <= states.len(),
    ensures
        released_back(states, upto, n, now).len() == states.len(),
        forall|j: int|
            0 <= j < upto ==> #[trigger] released_back(states, upto, n, now)[j]
                == states[j].released(true, states[j].cleanup_for(n), now),
        forall|j: int|
            upto <= j < states.len() ==> #[trigger] released_back(states, upto, n, now)[j]
                == states[j],
    decreases upto,
{
    if upto > 0 {
        let next = states.update(
            upto - 1,
            states[upto - 1].released(true, states[upto - 1].cleanup_for(n), now),
        );
        lemma_released_back(next, upto - 1, n, now);
    }
}

/// The member at which a passage ends: the one at which the request
/// stops, or the place behind the last member if it passes all.
pub open spec fn passage_end(states: Seq<LimiterState>, passage: Passage) -> int {
    match passage.stopped_at {
        Some(at) => at,
        None => states.len() as int,
    }
}

/// Whether the members before the one at which the request stops keep what
/// they granted: they do if the request passes all members or stays to
/// wait.
pub open spec fn passage_holds(
    states: Seq<LimiterState>,
    passage: Passage,
    n: u32,
    waiting: bool,
    cancelled: bool,
    now: Instant,
) -> bool {
    match passage.stopped_at {
        Some(at) => states[at].decision(n, waiting, cancelled, now) == Decision::Enqueue,
        None => true,
    }
}

/// How far a passage gets. Every member from `from` up to where the
/// request stops grants it. The member at which it stops does not, does
/// with it what it does with a request of its own, and the members behind
/// that one never see it.
pub proof fn lemma_passed(
    states: Seq<LimiterState>,
    from: int,
    n: u32,
    waiting: bool,
    cancelled: bool,
    now: Instant,
)
    requires
        0 <= from <= states.len(),
    ensures
        ({
            let p = passed(states, from, n, waiting, cancelled, now);
            let end = passage_end(states, p);
            &&& p.states.len() == states.len()
            &&& from <= end <= states.len()
            &&& p.stopped_at is Some ==> end < states.len()
            &&& forall|j: int|
                from <= j < end ==> (#[trigger] states[j]).decision(n, waiting, cancelled, now)
                    == Decision::Grant
            &&& p.stopped_at matches Some(at) ==> states[at].decision(n, waiting, cancelled, now)
                != Decision::Grant && p.states[at] == states[at].acquire(
                n,
                waiting,
                cancelled,
                now,
            )
            &&& forall|j: int| end < j < states.len() ==> #[trigger] p.states[j] == states[j]
        }),
    decreases states.len() - from,
{
    if from < states.len() {
        let decision = states[from].decision(n, waiting, cancelled, now);
        let after = states[from].acquire(n, waiting, cancelled, now);
        let next = states.update(from, after);
        if decision == Decision::Grant {
            lemma_passed(next, from + 1, n, waiting, cancelled, now);
            let p = passed(next, from + 1, n, waiting, cancelled, now);
            assert(p == passed(states, from, n, waiting, cancelled, now));
            let end = passage_end(states, p);
            assert forall|j: int| from <= j < end implies (#[trigger] states[j]).decision(
                n,
                waiting,
                cancelled,
                now,
            ) == Decision::Grant by {
                if j > from {
                    assert(next[j] == states[j]);
                }
            }
            if p.stopped_at is Some {
                assert(next[end] == states[end]);
            }
            assert forall|j: int| end < j < states.len() implies #[trigger] p.states[j]
                == states[j] by {
                assert(next[j] == states[j]);
            }
        } else if decision == Decision::Enqueue {
        } else {
            lemma_released_back(next, from, n, now);
        }
    }
}

/// What a passage does to the members that grant. Unless the request
/// passes all members or stays to wait, every member before the one at
/// which it stops releases the lease that it granted.
pub proof fn lemma_passed_before(
    states: Seq<LimiterState>,
    from: int,
    n: u32,
    waiting: bool,
    cancelled: bool,
    now: Instant,
)
    requires
        0 <= from <= states.len(),
    ensures
        ({
            let p = passed(states, from, n, waiting, cancelled, now);
            let end = passage_end(states, p);
            let holds = passage_holds(states, p, n, waiting, cancelled, now);
            &&& forall|j: int|
                from <= j < end && j < p.states.len() ==> #[trigger] p.states[j] == (if holds {
                    states[j].acquire(n, waiting, cancelled, now)
                } else {
                    states[j].acquire(n, waiting, cancelled, now).released(
                        true,
                        states[j].cleanup_for(n),
                        now,
                    )
                })
            &&& forall|j: int|
                0 <= j < from && j < p.states.len() ==> #[trigger] p.states[j] == (if holds {
                    states[j]
                } else {
                    states[j].released(true, states[j].cleanup_for(n), now)
                })
        }),
    decreases states.len() - from,
{
    lemma_passed(states, from, n, waiting, cancelled, now);
    if from < states.len() {
        let decision = states[from].decision(n, waiting, cancelled, now);
        let after = states[from].acquire(n, waiting, cancelled, now);
        let next = states.update(from, after);
        lemma_same_kind(states[from], n, waiting, cancelled, now);
        if decision == Decision::Grant {
            lemma_passed_before(next, from + 1, n, waiting, cancelled, now);
            lemma_passed(next, from + 1, n, waiting, cancelled, now);
            let p = passed(next, from + 1, n, waiting, cancelled, now);
            assert(p == passed(states, from, n, waiting, cancelled, now));
            let end = passage_end(states, p);
            if p.stopped_at is Some {
                assert(next[end] == states[end]);
            }
            let holds = passage_holds(states, p, n, waiting, cancelled, now);
            assert(holds == passage_holds(next, p, n, waiting, cancelled, now));
            assert forall|j: int| from <= j < end && j < p.states.len() implies #[trigger] p.states[j]
                == (if holds {
                states[j].acquire(n, waiting, cancelled, now)
            } else {
                states[j].acquire(n, waiting, cancelled, now).released(
                    true,
                    states[j].cleanup_for(n),
                    now,
                )
            }) by {
                if j > from {
                    assert(next[j] == states[j]);
                } else {
                    assert(next[j] == after);
                    assert(after.cleanup_for(n) == states[j].cleanup_for(n));
                }
            }
            assert forall|j: int| 0 <= j < from && j < p.states.len() implies #[trigger] p.states[j]
                == (if holds {
                states[j]
            } else {
                states[j].released(true, states[j].cleanup_for(n), now)
            }) by {
                assert(next[j] == states[j]);
            }
        } else if decision == Decision::Enqueue {
        } else {
            lemma_released_back(next, from, n, now);
        }
    }
}

/// Whether a concurrency limiter has as many permits in `after` as it had
/// in `before`. Of the other limiters nothing is asked: what they grant
/// does not come back.
pub open spec fn permits_restored(before: LimiterState, after: LimiterState) -> bool {
    match before {
        LimiterState::Concurrency(was) => match after {
            LimiterState::Concurrency(is) => is.available == was.available,
            _ => false,
        },
        _ => true,
    }
}

/// All or nothing. A request that does not wait and that a member turns
/// down, or meets with an error, leaves the members behind that one
/// untouched, and a concurrency limiter before it at which nobody waits has
/// as many permits as it had.
pub proof fn law_all_or_nothing(states: Seq<LimiterState>, n: u32, now: Instant)
    requires
        forall|j: int| 0 <= j < states.len() ==> (#[trigger] states[j]).inv(),
    ensures
        ({
            let p = passed(states, 0, n, false, false, now);
            p.stopped_at matches Some(at) ==> {
                &&& 0 <= at < states.len()
                &&& p.states.len() == states.len()
                &&& forall|j: int| at < j < states.len() ==> #[trigger] p.states[j] == states[j]
                &&& forall|j: int|
                    0 <= j < at && (#[trigger] states[j]).turnstile().queue.len() == 0
                        ==> permits_restored(states[j], p.states[j])
            }
        }),
{
    lemma_passed(states, 0, n, false, false, now);
    lemma_passed_before(states, 0, n, false, false, now);
    let p = passed(states, 0, n, false, false, now);
    if let Some(at) = p.stopped_at {
        states[at].lemma_decision(n, false, false, now);
        assert(states[at].decision(n, false, false, now) != Decision::Enqueue);
        assert forall|j: int|
            0 <= j < at && (#[trigger] states[j]).turnstile().queue.len()
                == 0 implies permits_restored(states[j], p.states[j]) by {
            assert(states[j].decision(n, false, false, now) == Decision::Grant);
            assert(p.states[j] == states[j].acquire(n, false, false, now).released(
                true,
                states[j].cleanup_for(n),
                now,
            ));
            if let LimiterState::Concurrency(before) = states[j] {
                reveal(LimiterState::acquire);
                reveal(LimiterState::released);
                reveal(LimiterState::decision);
                before.law_round_trip(n, now, now);
            }
        }
    }
}

/// A lease that a member did not grant, marked with the member's place.
pub open spec fn is_refusal(lease: RateLimitLease, hint: Option<Duration>, at: int) -> bool {
    &&& !lease.acquired()
    &&& lease.cleanup() is None
    &&& lease.metadata() == retry_metadata(hint).insert(
        MetadataName::FAILED_LIMITER_INDEX@,
        MetadataValue::Index(at as usize),
    )
}

/// A lease of the whole chain: acquired, and its cleanup holds the leases
/// of the members in their order.
pub open spec fn is_chain_lease(lease: RateLimitLease, states: Seq<LimiterState>, n: u32) -> bool {
    &&& lease.acquired()
    &&& lease.metadata() == Map::<Seq<char>, MetadataValue>::empty()
    &&& lease.cleanup() matches Some(LeaseCleanup::Leases(inner)) && holds_leases(
        inner@,
        states,
        states.len() as int,
        n,
    )
}

/// Whether `r` is what a request for `n` permits that did not have to wait
/// comes to: `states` are the members before it, `passage` is how it got
/// through.
pub open spec fn chain_answers(
    r: Result<RateLimitLease, RateLimitError>,
    states: Seq<LimiterState>,
    passage: Passage,
    n: u32,
    waiting: bool,
    cancelled: bool,
    now: Instant,
) -> bool {
    match passage.stopped_at {
        None => r matches Ok(lease) && is_chain_lease(lease, states, n),
        Some(at) => match states[at].decision(n, waiting, cancelled, now) {
            Decision::Reject => r matches Ok(lease) && is_refusal(
                lease,
                states[at].hint(n, now),
                at,
            ),
            Decision::Exceeded => r == Err::<RateLimitLease, RateLimitError>(
                RateLimitError::PermitCountExceeded(n, states[at].turnstile().capacity as u32),
            ),
            Decision::Disposed => r == Err::<RateLimitLease, RateLimitError>(
                RateLimitError::Disposed,
            ),
            Decision::Cancelled => r == Err::<RateLimitLease, RateLimitError>(
                RateLimitError::Cancelled,
            ),
            _ => false,
        },
    }
}

/// A request that waits at a member of a chain.
#[derive(Debug)]
pub struct ChainProgress {
    permits: u32,
    index: usize,
    ticket: u64,
    held: Vec<RateLimitLease>,
}

impl ChainProgress {
    /// The permits that the request asks of every member.
    pub closed spec fn permits(&self) -> u32 {
        self.permits
    }

    /// The place of the member at which it waits.
    pub closed spec fn index(&self) -> int {
        self.index as int
    }

    /// The ticket that the member gave it.
    pub closed spec fn ticket(&self) -> u64 {
        self.ticket
    }

    /// The leases that the members before that one granted.
    pub closed spec fn held(&self) -> Seq<RateLimitLease> {
        self.held@
    }

    pub fn waits_at(&self) -> (index: usize)
        ensures
            index == self.index(),
    {
        self.index
    }

    pub fn waits_for(&self) -> (ticket: u64)
        ensures
            ticket == self.ticket(),
    {
        self.ticket
    }

    pub fn permit_count(&self) -> (permits: u32)
        ensures
            permits == self.permits(),
    {
        self.permits
    }
}

/// What a waiting acquisition on a chain comes to at once.
#[derive(Debug)]
pub enum ChainAcquisition {
    /// The request was decided; here is its lease.
    Ready(RateLimitLease),
    /// The request waits at a member.
    Pending(ChainProgress),
}

/// Whether `r` is what a request for `n` permits that may be ready to
/// wait comes to: `states` are the members before it, `passage` is how it
/// got through.
pub open spec fn chain_answers_waiting(
    r: Result<ChainAcquisition, RateLimitError>,
    states: Seq<LimiterState>,
    passage: Passage,
    n: u32,
    waiting: bool,
    cancelled: bool,
    now: Instant,
) -> bool {
    match passage.stopped_at {
        None => r matches Ok(ChainAcquisition::Ready(lease)) && is_chain_lease(lease, states, n),
        Some(at) => match states[at].decision(n, waiting, cancelled, now) {
            Decision::Enqueue => r matches Ok(ChainAcquisition::Pending(progress)) && {
                &&& progress.permits() == n
                &&& progress.index() == at
                &&& progress.ticket() == states[at].turnstile().next_ticket
                &&& holds_leases(progress.held(), states, at, n)
            },
            Decision::Reject => r matches Ok(ChainAcquisition::Ready(lease)) && is_refusal(
                lease,
                states[at].hint(n, now),
                at,
            ),
            Decision::Exceeded => r == Err::<ChainAcquisition, RateLimitError>(
                RateLimitError::PermitCountExceeded(n, states[at].turnstile().capacity as u32),
            ),
            Decision::Disposed => r == Err::<ChainAcquisition, RateLimitError>(
                RateLimitError::Disposed,
            ),
            Decision::Cancelled => r == Err::<ChainAcquisition, RateLimitError>(
                RateLimitError::Cancelled,
            ),
            Decision::Grant => false,
        },
    }
}

/// What one member reports at `now`.
pub open spec fn member_statistics(state: LimiterState, now: Instant) -> RateLimiterStatistics {
    RateLimiterStatistics {
        current_available_permits: state.available_at(now) as i64,
        current_queued_count: state.turnstile().queued() as u32,
        total_successful_leases: state.turnstile().successful as u64,
        total_failed_leases: state.turnstile().failed as u64,
    }
}

/// The leases that the first `upto` members handed out as acquired, taken
/// together.
pub open spec fn total_successful(states: Seq<LimiterState>, upto: int) -> nat
    decreases upto,
{
    if upto <= 0 {
        0
    } else {
        total_successful(states, upto - 1) + states[upto - 1].turnstile().successful
    }
}

/// The leases that the first `upto` members handed out as not acquired,
/// taken together.
pub open spec fn total_failed(states: Seq<LimiterState>, upto: int) -> nat
    decreases upto,
{
    if upto <= 0 {
        0
    } else {
        total_failed(states, upto - 1) + states[upto - 1].turnstile().failed
    }
}

/// Limiters in a row. A request has to get its permits from every one of
/// them, in their order.
pub struct ChainedRateLimiter {
    limiters: Vec<Limiter>,
}

impl View for ChainedRateLimiter {
    type V = Seq<LimiterState>;

    /// The states of the members, in their order.
    closed spec fn view(&self) -> Seq<LimiterState> {
        Seq::new(self.limiters@.len(), |i: int| self.limiters@[i]@)
    }
}

impl ChainedRateLimiter {
    /// The chain is sound: it has members, and each of them is sound.
    pub closed spec fn wf(&self) -> bool {
        &&& self.limiters@.len() >= 1
        &&& forall|i: int| 0 <= i < self.limiters@.len() ==> (#[trigger] self.limiters@[i]).wf()
    }

    pub proof fn lemma_wf(&self)
        requires
            self.wf(),
        ensures
            self@.len() >= 1,
            forall|i: int| 0 <= i < self@.len() ==> (#[trigger] self@[i]).inv(),
    {
        assert forall|i: int| 0 <= i < self@.len() implies (#[trigger] self@[i]).inv() by {
            self.limiters@[i].lemma_well_formed();
        }
    }

    /// A chain of the given limiters, which have to be at least one.
    pub fn new(limiters: Vec<Limiter>) -> (r: Result<ChainedRateLimiter, RateLimitError>)
        requires
            forall|i: int| 0 <= i < limiters@.len() ==> (#[trigger] limiters@[i]).wf(),
        ensures
            match r {
                Ok(chain) => {
                    &&& limiters@.len() >= 1
                    &&& chain.wf()
                    &&& chain@ == Seq::new(limiters@.len(), |i: int| limiters@[i]@)
                },
                Err(e) => limiters@.len() == 0 && e.is_invalid("Must provide at least 1 limiter"@),
            },
    {
        if limiters.len() == 0 {
            return Err(RateLimitError::invalid("Must provide at least 1 limiter"));
        }
        Ok(ChainedRateLimiter { limiters })
    }

    /// How many members the chain has.
    pub fn limiter_count(&self) -> (count: usize)
        ensures
            count == self@.len(),
    {
        self.limiters.len()
    }

    /// The member at `index`, if there is one.
    pub fn limiter(&self, index: usize) -> (member: Option<&Limiter>)
        requires
            self.wf(),
        ensures
            match member {
                Some(limiter) => index < self@.len() && limiter.wf() && limiter@
                    == self@[index as int],
                None => index >= self@.len(),
            },
    {
        if index < self.limiters.len() {
            Some(&self.limiters[index])
        } else {
            None
        }
    }

    /// Releases the given leases, the last one first, each to the member at
    /// its place.
    fn release_all(&mut self, leases: Vec<RateLimitLease>, now: Instant)
        requires
            old(self).wf(),
        ensures
            final(self).wf(),
            final(self)@.len() == old(self)@.len(),
            final(self)@ == released_all(old(self)@, leases@, now),
    {
        let mut leases = leases;
        let ghost all = leases@;
        while leases.len() > 0
            invariant
                self.wf(),
                self@.len() == old(self)@.len(),
                released_all(old(self)@, all, now) == released_all(self@, leases@, now),
            decreases leases.len(),
        {
            let ghost before = leases@;
            let ghost states = self@;
            let mut lease = leases.pop().unwrap();
            let at = leases.len();
            assert(before.drop_last() == leases@);
            if at < self.limiters.len() {
                self.limiters[at].release(&mut lease, now);
                assert(self@ =~= states.update(
                    at as int,
                    states[at as int].released(
                        before[at as int].acquired(),
                        before[at as int].cleanup(),
                        now,
                    ),
                ));
            }
        }
    }

    /// Asks the member at `at` for `n` permits.
    fn ask(&mut self, at: usize, n: u32, waiting: bool, cancelled: bool, now: Instant) -> (r: Result<
        Acquisition,
        RateLimitError,
    >)
        requires
            old(self).wf(),
            at < old(self)@.len(),
        ensures
            final(self).wf(),
            final(self)@ == old(self)@.update(
                at as int,
                old(self)@[at as int].acquire(n, waiting, cancelled, now),
            ),
            crate::turnstile::answers_waiting(
                r,
                old(self)@[at as int].decision(n, waiting, cancelled, now),
                n,
                old(self)@[at as int].turnstile().capacity,
                old(self)@[at as int].cleanup_for(n),
                old(self)@[at as int].hint(n, now),
                old(self)@[at as int].turnstile().next_ticket,
            ),
            !waiting ==> !(r matches Ok(Acquisition::Pending(_))),
    {
        let ghost states = self@;
        proof {
            states[at as int].lemma_decision(n, waiting, cancelled, now);
        }
        let r = if waiting {
            self.limiters[at].acquire_async(n, cancelled, now)
        } else {
            match self.limiters[at].attempt_acquire(n, now) {
                Ok(lease) => Ok(Acquisition::Ready(lease)),
                Err(e) => Err(e),
            }
        };
        assert(self@ =~= states.update(
            at as int,
            states[at as int].acquire(n, waiting, cancelled, now),
        ));
        r
    }

    /// Lets a request for `n` permits pass the members from `from` on.
    fn pass(
        &mut self,
        n: u32,
        from: usize,
        held: Vec<RateLimitLease>,
        waiting: bool,
        cancelled: bool,
        now: Instant,
    ) -> (r: Result<ChainAcquisition, RateLimitError>)
        requires
            old(self).wf(),
            holds_leases(held@, old(self)@, from as int, n),
        ensures
            final(self).wf(),
            final(self)@.len() == old(self)@.len(),
            final(self)@ == passed(old(self)@, from as int, n, waiting, cancelled, now).states,
            chain_answers_waiting(
                r,
                old(self)@,
                passed(old(self)@, from as int, n, waiting, cancelled, now),
                n,
                waiting,
                cancelled,
                now,
            ),
            r matches Ok(ChainAcquisition::Pending(progress)) ==> final(self).fits(progress),
    {
        let mut held = held;
        let mut i = from;
        let ghost goal = passed(old(self)@, from as int, n, waiting, cancelled, now);
        while i < self.limiters.len()
            invariant
                self.wf(),
                self@.len() == old(self)@.len(),
                from <= i <= self@.len(),
                goal == passed(old(self)@, from as int, n, waiting, cancelled, now),
                goal == passed(self@, i as int, n, waiting, cancelled, now),
                holds_leases(held@, old(self)@, i as int, n),
                forall|j: int| i <= j < self@.len() ==> self@[j] == old(self)@[j],
                forall|j: int|
                    0 <= j < self@.len() ==> (#[trigger] self@[j]).cleanup_for(n) == old(
                        self,
                    )@[j].cleanup_for(n),
            decreases self.limiters.len() - i,
        {
            let ghost states = self@;
            let ghost member = states[i as int];
            let ghost decision = member.decision(n, waiting, cancelled, now);
            let ghost next = states.update(i as int, member.acquire(n, waiting, cancelled, now));
            proof {
                assert(member == old(self)@[i as int]);
                lemma_same_kind(member, n, waiting, cancelled, now);
            }
            let r = self.ask(i, n, waiting, cancelled, now);
            assert(self@ == next);
            match r {
                Ok(Acquisition::Ready(lease)) => {
                    if lease.is_acquired() {
                        assert(decision == Decision::Grant);
                        held.push(lease);
                        i += 1;
                    } else {
                        assert(decision == Decision::Reject);
                        proof {
                            assert(goal.stopped_at == Some(i as int));
                            assert(goal.states == released_back(next, i as int, n, now));
                            lemma_holds_after(held@, old(self)@, next, i as int, n);
                            lemma_released_all(next, held@, n, now);
                            lemma_released_back_len(next, i as int, n, now);
                        }
                        self.release_all(held, now);
                        let marked = lease.with_metadata(
                            MetadataName::FAILED_LIMITER_INDEX,
                            MetadataValue::Index(i),
                        );
                        return Ok(ChainAcquisition::Ready(marked));
                    }
                },
                Ok(Acquisition::Pending(ticket)) => {
                    assert(decision == Decision::Enqueue);
                    assert(goal.stopped_at == Some(i as int));
                    proof {
                        lemma_holds_after(held@, old(self)@, self@, i as int, n);
                    }
                    return Ok(
                        ChainAcquisition::Pending(
                            ChainProgress { permits: n, index: i, ticket, held },
                        ),
                    );
                },
                Err(e) => {
                    proof {
                        assert(decision != Decision::Grant && decision != Decision::Enqueue);
                        assert(goal.stopped_at == Some(i as int));
                        assert(goal.states == released_back(next, i as int, n, now));
                        lemma_holds_after(held@, old(self)@, next, i as int, n);
                        lemma_released_all(next, held@, n, now);
                        lemma_released_back_len(next, i as int, n, now);
                    }
                    self.release_all(held, now);
                    return Err(e);
                },
            }
        }
        Ok(
            ChainAcquisition::Ready(
                RateLimitLease::success_with_cleanup(LeaseCleanup::Leases(held)),
            ),
        )
    }

    /// Asks every member for `permit_count` permits without waiting.
    ///
    /// If every member grants them, the lease is acquired and holds the
    /// members' leases. If a member turns the request down, the leases of
    /// the members before it are released and its lease comes back, marked
    /// with its place. If a member meets the request with an error, the
    /// leases of the members before it are released and the error comes
    /// back.
    pub fn attempt_acquire(&mut self, permit_count: u32, now: Instant) -> (r: Result<
        RateLimitLease,
        RateLimitError,
    >)
        requires
            old(self).wf(),
        ensures
            final(self).wf(),
            final(self)@.len() == old(self)@.len(),
            final(self)@ == passed(old(self)@, 0, permit_count, false, false, now).states,
            chain_answers(
                r,
                old(self)@,
                passed(old(self)@, 0, permit_count, false, false, now),
                permit_count,
                false,
                false,
                now,
            ),
    {
        proof {
            lemma_passed(self@, 0, permit_count, false, false, now);
            let p = passed(self@, 0, permit_count, false, false, now);
            if let Some(at) = p.stopped_at {
                self@[at].lemma_decision(permit_count, false, false, now);
            }
        }
        match self.pass(permit_count, 0, Vec::new(), false, false, now) {
            Ok(ChainAcquisition::Ready(lease)) => Ok(lease),
            // A request that is not ready to wait never joins a queue.
            Ok(ChainAcquisition::Pending(_)) => Err(RateLimitError::QueueLimitExceeded),
            Err(e) => Err(e),
        }
    }

    /// Asks every member for `permit_count` permits and is ready to wait at
    /// each. Where a member queues the request, it waits there: `resume`
    /// takes it on when the wait has ended, `cancel` takes it out.
    pub fn acquire_async(&mut self, permit_count: u32, cancelled: bool, now: Instant) -> (r: Result<
        ChainAcquisition,
        RateLimitError,
    >)
        requires
            old(self).wf(),
        ensures
            final(self).wf(),
            final(self)@.len() == old(self)@.len(),
            final(self)@ == passed(old(self)@, 0, permit_count, true, cancelled, now).states,
            chain_answers_waiting(
                r,
                old(self)@,
                passed(old(self)@, 0, permit_count, true, cancelled, now),
                permit_count,
                true,
                cancelled,
                now,
            ),
            r matches Ok(ChainAcquisition::Pending(progress)) ==> final(self).fits(progress),
    {
        self.pass(permit_count, 0, Vec::new(), true, cancelled, now)
    }

    /// Whether the progress can be one of this chain.
    pub open spec fn fits(&self, progress: ChainProgress) -> bool {
        holds_leases(progress.held(), self@, progress.index(), progress.permits())
            && progress.index() < self@.len()
    }

    /// Takes a request on whose wait at a member has ended with the given
    /// completion. If the member granted the permits, the request passes on
    /// to the members behind it. If the member sent it away, the leases of
    /// the members before it are released and the member's lease comes
    /// back, marked with its place. A grant that is not one of this member
    /// for this request is released at the member, and the request ends
    /// with an error.
    pub fn resume(
        &mut self,
        progress: ChainProgress,
        completion: Completion,
        cancelled: bool,
        now: Instant,
    ) -> (r: Result<ChainAcquisition, RateLimitError>)
        requires
            old(self).wf(),
            old(self).fits(progress),
        ensures
            final(self).wf(),
            final(self)@.len() == old(self)@.len(),
            r matches Ok(ChainAcquisition::Pending(next)) ==> final(self).fits(next),
            ({
                let at = progress.index();
                let n = progress.permits();
                match completion.outcome {
                    WaitOutcome::Granted { refund } => if completion.cleanup() == old(
                        self,
                    )@[at].cleanup_for(n) {
                        &&& final(self)@ == passed(old(self)@, at + 1, n, true, cancelled, now).states
                        &&& chain_answers_waiting(
                            r,
                            old(self)@,
                            passed(old(self)@, at + 1, n, true, cancelled, now),
                            n,
                            true,
                            cancelled,
                            now,
                        )
                    } else {
                        &&& final(self)@ == released_back(
                            old(self)@.update(
                                at,
                                old(self)@[at].released(true, completion.cleanup(), now),
                            ),
                            at,
                            n,
                            now,
                        )
                        &&& r matches Err(e) && e.is_invalid("the completion is of another wait"@)
                    },
                    WaitOutcome::Failed { retry_after } => {
                        &&& final(self)@ == released_back(old(self)@, at, n, now)
                        &&& r matches Ok(ChainAcquisition::Ready(lease)) && is_refusal(
                            lease,
                            retry_after,
                            at,
                        )
                    },
                }
            }),
    {
        let ChainProgress { permits, index, ticket, held } = progress;
        let count = self.limiters.len();
        assert(index < count);
        let expected = self.limiters[index].refund_for(permits);
        match completion.outcome {
            WaitOutcome::Granted { refund } => {
                if refund == expected {
                    let mut held = held;
                    held.push(completion.into_lease());
                    self.pass(permits, index + 1, held, true, cancelled, now)
                } else {
                    self.discard(index, completion, now);
                    proof {
                        assert forall|j: int| 0 <= j < held@.len() implies (
                        #[trigger] held@[j]).is_success_with(self@[j].cleanup_for(permits)) by {
                            assert(self@[j] == old(self)@[j]);
                        }
                        lemma_released_all(self@, held@, permits, now);
                        lemma_released_back_len(self@, index as int, permits, now);
                    }
                    self.release_all(held, now);
                    Err(RateLimitError::invalid("the completion is of another wait"))
                }
            },
            WaitOutcome::Failed { retry_after } => {
                proof {
                    lemma_released_all(self@, held@, permits, now);
                    lemma_released_back_len(self@, index as int, permits, now);
                }
                self.release_all(held, now);
                Ok(
                    ChainAcquisition::Ready(
                        completion.into_lease().with_metadata(
                            MetadataName::FAILED_LIMITER_INDEX,
                            MetadataValue::Index(index),
                        ),
                    ),
                )
            },
        }
    }

    /// Releases what a completion at the member at `index` granted, for a
    /// wait that nobody takes on. A place behind the last member has no
    /// waits.
    pub fn discard(&mut self, index: usize, completion: Completion, now: Instant)
        requires
            old(self).wf(),
        ensures
            final(self).wf(),
            final(self)@.len() == old(self)@.len(),
            final(self)@ == (if index < old(self)@.len() {
                old(self)@.update(
                    index as int,
                    old(self)@[index as int].released(
                        completion.granted(),
                        completion.cleanup(),
                        now,
                    ),
                )
            } else {
                old(self)@
            }),
    {
        if index < self.limiters.len() {
            let ghost states = self@;
            let mut lease = completion.into_lease();
            self.limiters[index].release(&mut lease, now);
            assert(self@ =~= states.update(
                index as int,
                states[index as int].released(completion.granted(), completion.cleanup(), now),
            ));
        }
    }

    /// Gives up a request that waited at a member and does so no longer:
    /// the leases of the members before it are released.
    pub fn abort(&mut self, progress: ChainProgress, now: Instant)
        requires
            old(self).wf(),
            old(self).fits(progress),
        ensures
            final(self).wf(),
            final(self)@.len() == old(self)@.len(),
            final(self)@ == released_back(old(self)@, progress.index(), progress.permits(), now),
    {
        let ChainProgress { permits, index, ticket, held } = progress;
        proof {
            lemma_released_all(self@, held@, permits, now);
            lemma_released_back_len(self@, index as int, permits, now);
        }
        self.release_all(held, now);
    }

    /// Cancels a request that waits at a member. If it was still waiting,
    /// it leaves the member's queue, the leases of the members before it
    /// are released, and nothing comes back: the request ends as cancelled.
    /// If its wait had ended, the progress comes back to be resumed.
    pub fn cancel(&mut self, progress: ChainProgress, now: Instant) -> (r: Option<ChainProgress>)
        requires
            old(self).wf(),
            old(self).fits(progress),
        ensures
            final(self).wf(),
            final(self)@.len() == old(self)@.len(),
            ({
                let at = progress.index();
                let member = old(self)@[at];
                if member.turnstile().holds(progress.ticket()) {
                    &&& r is None
                    &&& final(self)@ == released_back(
                        old(self)@.update(at, member.cancelled(progress.ticket(), now)),
                        at,
                        progress.permits(),
                        now,
                    )
                } else {
                    &&& r == Some(progress)
                    &&& final(self).fits(progress)
                    &&& final(self)@ == old(self)@.update(
                        at,
                        member.cancelled(progress.ticket(), now),
                    )
                }
            }),
    {
        let ghost states = self@;
        let found = self.limiters[progress.index].cancel(progress.ticket, now);
        proof {
            let at = progress.index as int;
            assert(self@ =~= states.update(at, states[at].cancelled(progress.ticket, now)));
        }
        if found {
            let ChainProgress { permits, index, ticket, held } = progress;
            proof {
                assert forall|j: int| 0 <= j < held@.len() implies (
                #[trigger] held@[j]).is_success_with(self@[j].cleanup_for(permits)) by {
                    assert(self@[j] == states[j]);
                }
                lemma_released_all(self@, held@, permits, now);
                lemma_released_back_len(self@, index as int, permits, now);
            }
            self.release_all(held, now);
            None
        } else {
            Some(progress)
        }
    }

    /// Releases a lease of the chain: the leases of the members that it
    /// holds are released, the last one first. A lease that was not
    /// acquired, or released before, changes nothing.
    pub fn release(&mut self, lease: &mut RateLimitLease, now: Instant)
        requires
            old(self).wf(),
        ensures
            final(self).wf(),
            final(self)@.len() == old(self)@.len(),
            final(self)@ == (match old(lease).cleanup() {
                Some(LeaseCleanup::Leases(inner)) => if old(lease).acquired() {
                    released_all(old(self)@, inner@, now)
                } else {
                    old(self)@
                },
                _ => old(self)@,
            }),
            final(lease).cleanup() is None,
            final(lease).acquired() == old(lease).acquired(),
            final(lease).metadata() == old(lease).metadata(),
    {
        let acquired = lease.is_acquired();
        match lease.take_cleanup() {
            Some(LeaseCleanup::Leases(inner)) => {
                if acquired {
                    self.release_all(inner, now);
                }
            },
            _ => {},
        }
    }

    /// Hands over the waits at the member at `index` that ended since the
    /// last call, the earliest first. A place behind the last member has
    /// none.
    pub fn take_completions(&mut self, index: usize) -> (completions: Vec<Completion>)
        requires
            old(self).wf(),
        ensures
            final(self).wf(),
            final(self)@.len() == old(self)@.len(),
            if index < old(self)@.len() {
                &&& final(self)@ == old(self)@.update(
                    index as int,
                    old(self)@[index as int].collected(),
                )
                &&& completions@ == old(self)@[index as int].turnstile().completions
            } else {
                &&& final(self)@ == old(self)@
                &&& completions@ == Seq::<Completion>::empty()
            },
    {
        if index < self.limiters.len() {
            let ghost states = self@;
            let completions = self.limiters[index].take_completions();
            assert(self@ =~= states.update(index as int, states[index as int].collected()));
            completions
        } else {
            Vec::new()
        }
    }

    /// Disposes every member at `now`.
    pub fn dispose(&mut self, now: Instant)
        requires
            old(self).wf(),
        ensures
            final(self).wf(),
            final(self)@.len() == old(self)@.len(),
            final(self)@ == Seq::new(old(self)@.len(), |i: int| old(self)@[i].disposed(now)),
    {
        let mut i: usize = 0;
        while i < self.limiters.len()
            invariant
                self.wf(),
                i <= self@.len(),
                self@.len() == old(self)@.len(),
                forall|j: int| 0 <= j < i ==> self@[j] == old(self)@[j].disposed(now),
                forall|j: int| i <= j < self@.len() ==> self@[j] == old(self)@[j],
            decreases self.limiters.len() - i,
        {
            let ghost states = self@;
            self.limiters[i].dispose(now);
            assert(self@ =~= states.update(i as int, states[i as int].disposed(now)));
            i += 1;
        }
        assert(self@ =~= Seq::new(old(self)@.len(), |i: int| old(self)@[i].disposed(now)));
    }

    /// Replenishes every member at `now`, as their timers do.
    pub fn replenish(&mut self, now: Instant)
        requires
            old(self).wf(),
        ensures
            final(self).wf(),
            final(self)@.len() == old(self)@.len(),
            final(self)@ == Seq::new(old(self)@.len(), |i: int| old(self)@[i].replenished(now)),
    {
        let mut i: usize = 0;
        while i < self.limiters.len()
            invariant
                self.wf(),
                i <= self@.len(),
                self@.len() == old(self)@.len(),
                forall|j: int| 0 <= j < i ==> self@[j] == old(self)@[j].replenished(now),
                forall|j: int| i <= j < self@.len() ==> self@[j] == old(self)@[j],
            decreases self.limiters.len() - i,
        {
            let ghost states = self@;
            self.limiters[i].replenish(now);
            assert(self@ =~= states.update(i as int, states[i as int].replenished(now)));
            i += 1;
        }
        assert(self@ =~= Seq::new(old(self)@.len(), |i: int| old(self)@[i].replenished(now)));
    }

    /// What the chain reports at `now`: the fewest permits that a member
    /// has, the most permits that are queued at a member, and the leases
    /// that all members handed out.
    pub fn get_statistics(&self, now: Instant) -> (stats: RateLimiterStatistics)
        requires
            self.wf(),
        ensures
            forall|i: int|
                0 <= i < self@.len() ==> stats.current_available_permits <= (#[trigger] self@[i]).available_at(
                    now,
                ),
            exists|i: int|
                0 <= i < self@.len() && stats.current_available_permits == (#[trigger] self@[i]).available_at(
                    now,
                ),
            forall|i: int|
                0 <= i < self@.len() ==> stats.current_queued_count >= (#[trigger] self@[i]).turnstile().queued(),
            exists|i: int|
                0 <= i < self@.len() && stats.current_queued_count == (#[trigger] self@[i]).turnstile().queued(),
            stats.total_successful_leases == clamp_count(
                total_successful(self@, self@.len() as int),
            ),
            stats.total_failed_leases == clamp_count(total_failed(self@, self@.len() as int)),
    {
        let first = self.limiters[0].get_statistics(now);
        let mut available = first.current_available_permits;
        let mut queued = first.current_queued_count;
        let mut successful = first.total_successful_leases;
        let mut failed = first.total_failed_leases;
        let mut i: usize = 1;
        proof {
            assert(total_successful(self@, 0) == 0);
            assert(total_failed(self@, 0) == 0);
            assert(self@[0] == self.limiters@[0]@);
        }
        while i < self.limiters.len()
            invariant
                self.wf(),
                1 <= i <= self@.len(),
                forall|j: int|
                    0 <= j < i ==> available <= (#[trigger] self@[j]).available_at(now),
                exists|j: int| 0 <= j < i && available == (#[trigger] self@[j]).available_at(now),
                forall|j: int|
                    0 <= j < i ==> queued >= (#[trigger] self@[j]).turnstile().queued(),
                exists|j: int| 0 <= j < i && queued == (#[trigger] self@[j]).turnstile().queued(),
                successful == clamp_count(total_successful(self@, i as int)),
                failed == clamp_count(total_failed(self@, i as int)),
            decreases self.limiters.len() - i,
        {
            let stats = self.limiters[i].get_statistics(now);
            proof {
                assert(self@[i as int] == self.limiters@[i as int]@);
            }
            let ghost was_available = choose|j: int|
                0 <= j < i && available == (#[trigger] self@[j]).available_at(now);
            let ghost was_queued = choose|j: int|
                0 <= j < i && queued == (#[trigger] self@[j]).turnstile().queued();
            if stats.current_available_permits < available {
                available = stats.current_available_permits;
            } else {
                assert(available == self@[was_available].available_at(now));
            }
            if stats.current_queued_count > queued {
                queued = stats.current_queued_count;
            } else {
                assert(queued == self@[was_queued].turnstile().queued());
            }
            successful = successful.saturating_add(stats.total_successful_leases);
            failed = failed.saturating_add(stats.total_failed_leases);
            i += 1;
        }
        RateLimiterStatistics::new(available, queued, successful, failed)
    }

    /// For how long the whole chain has been idle at `now`: for as long as
    /// the member that was busy last, and not at all while a member is
    /// busy.
    pub fn idle_duration(&self, now: Instant) -> (idle: Option<Duration>)
        requires
            self.wf(),
        ensures
            idle is Some <==> forall|i: int|
                0 <= i < self@.len() ==> idle_for((#[trigger] self@[i]).idle_since_at(now), now) is Some,
            idle matches Some(shortest) ==> {
                &&& forall|i: int|
                    0 <= i < self@.len() ==> shortest@ <= idle_for(
                        (#[trigger] self@[i]).idle_since_at(now),
                        now,
                    )->0@
                &&& exists|i: int|
                    0 <= i < self@.len() && Some(shortest) == idle_for(
                        (#[trigger] self@[i]).idle_since_at(now),
                        now,
                    )
            },
    {
        let mut shortest: Option<Duration> = None;
        let mut i: usize = 0;
        while i < self.limiters.len()
            invariant
                self.wf(),
                i <= self@.len(),
                forall|j: int|
                    0 <= j < i ==> idle_for((#[trigger] self@[j]).idle_since_at(now), now) is Some,
                i > 0 ==> shortest is Some,
                shortest matches Some(least) ==> {
                    &&& forall|j: int|
                        0 <= j < i ==> least@ <= idle_for(
                            (#[trigger] self@[j]).idle_since_at(now),
                            now,
                        )->0@
                    &&& exists|j: int|
                        0 <= j < i && Some(least) == idle_for(
                            (#[trigger] self@[j]).idle_since_at(now),
                            now,
                        )
                },
            decreases self.limiters.len() - i,
        {
            proof {
                assert(self@[i as int] == self.limiters@[i as int]@);
            }
            match self.limiters[i].idle_duration(now) {
                Some(duration) => {
                    match shortest {
                        Some(least) => {
                            let ghost was = choose|j: int|
                                0 <= j < i && Some(least) == idle_for(
                                    (#[trigger] self@[j]).idle_since_at(now),
                                    now,
                                );
                            if duration.as_nanos() < least.as_nanos() {
                                shortest = Some(duration);
                            } else {
                                assert(Some(least) == idle_for(
                                    self@[was].idle_since_at(now),
                                    now,
                                ));
                            }
                        },
                        None => {
                            shortest = Some(duration);
                        },
                    }
                },
                None => {
                    return None;
                },
            }
            i += 1;
        }
        shortest
    }
}

} // verus!
