//! The wait queue that the limiters share.
//!
//! Waiters stand in arrival order, the oldest in front. The order of service
//! decides which end is the head: the front under `OldestFirst`, the back
//! under `NewestFirst`. Under `NewestFirst` a newcomer that finds the queue
//! full pushes the oldest waiters out.

use vstd::prelude::*;
use std::collections::VecDeque;

verus! {

/// The order in which queued acquisitions are served.
#[derive(Debug, Clone, Copy, PartialEq, Eq, Structural)]
pub enum QueueProcessingOrder {
    /// The acquisition that has waited longest is served first.
    OldestFirst,
    /// The acquisition that arrived last is served first.
    NewestFirst,
}

/// An acquisition that waits for permits.
#[derive(Debug, Clone, Copy, PartialEq, Eq, Structural)]
pub struct Waiter {
    /// The ticket by which the waiter is told apart from the others.
    pub ticket: u64,
    /// The permits it asked for.
    pub permits: u32,
    /// Whether whoever waited has gone away without cancelling.
    pub abandoned: bool,
}

/// The permits that the waiters ask for, taken together.
pub open spec fn total_permits(q: Seq<Waiter>) -> nat
    decreases q.len(),
{
    if q.len() == 0 {
        0
    } else {
        total_permits(q.drop_last()) + q.last().permits as nat
    }
}

pub proof fn lemma_total_concat(a: Seq<Waiter>, b: Seq<Waiter>)
    ensures
        total_permits(a + b) == total_permits(a) + total_permits(b),
    decreases b.len(),
{
    if b.len() == 0 {
        assert(a + b == a);
    } else {
        lemma_total_concat(a, b.drop_last());
        assert((a + b).drop_last() == a + b.drop_last());
        assert((a + b).last() == b.last());
    }
}

pub proof fn lemma_total_split(q: Seq<Waiter>, at: int)
    requires
        0 <= at <= q.len(),
    ensures
        total_permits(q) == total_permits(q.subrange(0, at)) + total_permits(
            q.subrange(at, q.len() as int),
        ),
{
    lemma_total_concat(q.subrange(0, at), q.subrange(at, q.len() as int));
    assert(q == q.subrange(0, at) + q.subrange(at, q.len() as int));
}

pub proof fn lemma_total_single(w: Waiter)
    ensures
        total_permits(seq![w]) == w.permits,
{
    assert(seq![w].drop_last() == Seq::<Waiter>::empty());
    assert(total_permits(seq![w].drop_last()) == 0);
}

/// Taking one waiter out lowers the total by what it asked for.
pub proof fn lemma_total_remove(q: Seq<Waiter>, at: int)
    requires
        0 <= at < q.len(),
    ensures
        total_permits(q.remove(at)) + q[at].permits == total_permits(q),
{
    let before = q.subrange(0, at);
    let after = q.subrange(at + 1, q.len() as int);
    let tail = q.subrange(at, q.len() as int);
    lemma_total_split(q, at);
    lemma_total_split(tail, 1);
    assert(tail.subrange(0, 1) == seq![q[at]]);
    assert(tail.subrange(1, tail.len() as int) == after);
    lemma_total_single(q[at]);
    lemma_total_concat(before, after);
    assert(q.remove(at) == before + after);
}

/// Marking a waiter as abandoned leaves the total as it was.
pub proof fn lemma_total_update(q: Seq<Waiter>, at: int, w: Waiter)
    requires
        0 <= at < q.len(),
        w.permits == q[at].permits,
    ensures
        total_permits(q.update(at, w)) == total_permits(q),
{
    let updated = q.update(at, w);
    lemma_total_remove(q, at);
    lemma_total_remove(updated, at);
    assert(updated.remove(at) == q.remove(at));
}

/// Every part of a queue asks for no more than the whole.
pub proof fn lemma_total_subrange(q: Seq<Waiter>, from: int, to: int)
    requires
        0 <= from <= to <= q.len(),
    ensures
        total_permits(q.subrange(from, to)) <= total_permits(q),
{
    lemma_total_split(q, to);
    lemma_total_split(q.subrange(0, to), from);
    assert(q.subrange(0, to).subrange(from, to) == q.subrange(from, to));
}

/// Where every waiter asks for something, only an empty queue asks for nothing.
pub proof fn lemma_total_nothing(q: Seq<Waiter>)
    requires
        forall|i: int| 0 <= i < q.len() ==> (#[trigger] q[i]).permits >= 1,
    ensures
        total_permits(q) == 0 <==> q.len() == 0,
        total_permits(q) >= q.len(),
    decreases q.len(),
{
    if q.len() > 0 {
        let front = q.drop_last();
        assert forall|i: int| 0 <= i < front.len() implies (#[trigger] front[i]).permits >= 1 by {
            assert(front[i] == q[i]);
        }
        lemma_total_nothing(front);
        assert(q.last() == q[q.len() - 1]);
    }
}

/// Tickets grow from the front of the queue to its back.
pub open spec fn tickets_ascend(q: Seq<Waiter>) -> bool {
    forall|i: int, j: int| 0 <= i < j < q.len() ==> q[i].ticket < q[j].ticket
}

/// What holds of the waiters of every queue.
pub open spec fn queue_inv(q: Seq<Waiter>, limit: nat, next_ticket: nat) -> bool {
    &&& total_permits(q) <= limit
    &&& limit <= u32::MAX
    &&& next_ticket <= u64::MAX
    &&& tickets_ascend(q)
    &&& forall|i: int| 0 <= i < q.len() ==> (#[trigger] q[i]).ticket < next_ticket
    &&& forall|i: int| 0 <= i < q.len() ==> (#[trigger] q[i]).permits >= 1
}

/// The waiter that is served next. The queue is not empty.
pub open spec fn head_of(q: Seq<Waiter>, order: QueueProcessingOrder) -> Waiter {
    match order {
        QueueProcessingOrder::OldestFirst => q[0],
        QueueProcessingOrder::NewestFirst => q[q.len() - 1],
    }
}

/// The queue without the waiter that is served next.
pub open spec fn behind_head(q: Seq<Waiter>, order: QueueProcessingOrder) -> Seq<Waiter> {
    match order {
        QueueProcessingOrder::OldestFirst => q.subrange(1, q.len() as int),
        QueueProcessingOrder::NewestFirst => q.subrange(0, q.len() - 1),
    }
}

/// What draining a queue gives.
pub struct Drained {
    /// The waiters that stay, in arrival order.
    pub rest: Seq<Waiter>,
    /// The waiters that were granted their permits, in the order of the grants.
    pub granted: Seq<Waiter>,
    /// The permits that were granted.
    pub spent: nat,
}

/// Draining: look at the head again and again. An abandoned head leaves the
/// queue. A head that asks for no more than is available is granted its
/// permits and leaves. The first head that asks for more ends the drain.
pub open spec fn drain_model(q: Seq<Waiter>, available: nat, order: QueueProcessingOrder) -> Drained
    decreases q.len(),
{
    if q.len() == 0 {
        Drained { rest: q, granted: Seq::empty(), spent: 0 }
    } else {
        let head = head_of(q, order);
        let behind = behind_head(q, order);
        if head.abandoned {
            drain_model(behind, available, order)
        } else if head.permits <= available {
            let then = drain_model(behind, (available - head.permits) as nat, order);
            Drained {
                rest: then.rest,
                granted: seq![head] + then.granted,
                spent: head.permits as nat + then.spent,
            }
        } else {
            Drained { rest: q, granted: Seq::empty(), spent: 0 }
        }
    }
}

/// A drain grants no more than is available, grants exactly what the granted
/// waiters asked for, and leaves a part of the queue behind: its back under
/// `OldestFirst`, its front under `NewestFirst`. What it leaves is either
/// empty or has a head that is there and asks for more than is left.
pub proof fn lemma_drain(q: Seq<Waiter>, available: nat, order: QueueProcessingOrder)
    ensures
        ({
            let d = drain_model(q, available, order);
            &&& d.spent <= available
            &&& d.spent == total_permits(d.granted)
            &&& d.rest.len() + d.granted.len() <= q.len()
            &&& total_permits(d.rest) + d.spent <= total_permits(q)
            &&& d.rest == (match order {
                QueueProcessingOrder::OldestFirst => q.subrange(
                    q.len() - d.rest.len(),
                    q.len() as int,
                ),
                QueueProcessingOrder::NewestFirst => q.subrange(0, d.rest.len() as int),
            })
            &&& d.rest.len() > 0 ==> !head_of(d.rest, order).abandoned && head_of(
                d.rest,
                order,
            ).permits > available - d.spent
            &&& forall|i: int|
                0 <= i < d.granted.len() ==> !(#[trigger] d.granted[i]).abandoned && q.contains(
                    d.granted[i],
                )
        }),
    decreases q.len(),
{
    let d = drain_model(q, available, order);
    if q.len() == 0 {
        assert(d.rest == q.subrange(0, 0));
    } else {
        let head = head_of(q, order);
        let behind = behind_head(q, order);
        lemma_total_split(q, 1);
        lemma_total_split(q, q.len() - 1);
        lemma_total_single(head);
        assert(q.subrange(0, 1) == seq![q[0]]);
        assert(q.subrange(q.len() - 1, q.len() as int) == seq![q[q.len() - 1]]);
        assert(total_permits(behind) + head.permits == total_permits(q));
        if head.abandoned {
            lemma_drain(behind, available, order);
            let then = drain_model(behind, available, order);
            assert(d == then);
            lemma_rest_of_behind(q, then.rest, order);
            assert forall|i: int| 0 <= i < d.granted.len() implies q.contains(
                #[trigger] d.granted[i],
            ) by {
                lemma_behind_contains(q, order, d.granted[i]);
            }
        } else if head.permits <= available {
            let left = (available - head.permits) as nat;
            lemma_drain(behind, left, order);
            let then = drain_model(behind, left, order);
            lemma_total_concat(seq![head], then.granted);
            lemma_rest_of_behind(q, then.rest, order);
            assert forall|i: int| 0 <= i < d.granted.len() implies !(
            #[trigger] d.granted[i]).abandoned && q.contains(d.granted[i]) by {
                if i == 0 {
                    assert(d.granted[0] == head);
                    assert(q[0] == head || q[q.len() - 1] == head);
                } else {
                    assert(d.granted[i] == then.granted[i - 1]);
                    lemma_behind_contains(q, order, then.granted[i - 1]);
                }
            }
        } else {
            assert(d.rest == q);
            assert(q == q.subrange(0, q.len() as int));
        }
    }
}

proof fn lemma_behind_contains(q: Seq<Waiter>, order: QueueProcessingOrder, w: Waiter)
    requires
        q.len() > 0,
        behind_head(q, order).contains(w),
    ensures
        q.contains(w),
{
    let behind = behind_head(q, order);
    let i = choose|i: int| 0 <= i < behind.len() && behind[i] == w;
    match order {
        QueueProcessingOrder::OldestFirst => {
            assert(q[i + 1] == w);
        },
        QueueProcessingOrder::NewestFirst => {
            assert(q[i] == w);
        },
    }
}

proof fn lemma_rest_of_behind(q: Seq<Waiter>, rest: Seq<Waiter>, order: QueueProcessingOrder)
    requires
        q.len() > 0,
        rest.len() <= q.len() - 1,
        rest == (match order {
            QueueProcessingOrder::OldestFirst => behind_head(q, order).subrange(
                q.len() - 1 - rest.len(),
                q.len() - 1,
            ),
            QueueProcessingOrder::NewestFirst => behind_head(q, order).subrange(
                0,
                rest.len() as int,
            ),
        }),
    ensures
        rest == (match order {
            QueueProcessingOrder::OldestFirst => q.subrange(q.len() - rest.len(), q.len() as int),
            QueueProcessingOrder::NewestFirst => q.subrange(0, rest.len() as int),
        }),
{
    match order {
        QueueProcessingOrder::OldestFirst => {
            assert(rest =~= q.subrange(q.len() - rest.len(), q.len() as int));
        },
        QueueProcessingOrder::NewestFirst => {
            assert(rest =~= q.subrange(0, rest.len() as int));
        },
    }
}

/// A drain serves in the order of service. Where the oldest is served
/// first, the grants come in the order of arrival, and whoever is granted
/// came before everybody who stays. Where the newest is served first, the
/// grants come against the order of arrival, and whoever is granted came
/// after everybody who stays.
pub proof fn lemma_drain_order(q: Seq<Waiter>, available: nat, order: QueueProcessingOrder)
    requires
        tickets_ascend(q),
    ensures
        ({
            let d = drain_model(q, available, order);
            match order {
                QueueProcessingOrder::OldestFirst => {
                    &&& forall|i: int, j: int|
                        0 <= i < j < d.granted.len() ==> d.granted[i].ticket < d.granted[j].ticket
                    &&& forall|i: int, j: int|
                        0 <= i < d.granted.len() && 0 <= j < d.rest.len() ==> d.granted[i].ticket
                            < d.rest[j].ticket
                },
                QueueProcessingOrder::NewestFirst => {
                    &&& forall|i: int, j: int|
                        0 <= i < j < d.granted.len() ==> d.granted[i].ticket > d.granted[j].ticket
                    &&& forall|i: int, j: int|
                        0 <= i < d.granted.len() && 0 <= j < d.rest.len() ==> d.granted[i].ticket
                            > d.rest[j].ticket
                },
            }
        }),
    decreases q.len(),
{
    let d = drain_model(q, available, order);
    if q.len() > 0 {
        let head = head_of(q, order);
        let behind = behind_head(q, order);
        assert forall|i: int, j: int| 0 <= i < j < behind.len() implies behind[i].ticket
            < behind[j].ticket by {
            match order {
                QueueProcessingOrder::OldestFirst => {
                    assert(behind[i] == q[i + 1] && behind[j] == q[j + 1]);
                },
                QueueProcessingOrder::NewestFirst => {
                    assert(behind[i] == q[i] && behind[j] == q[j]);
                },
            }
        }
        let left = if head.abandoned {
            available
        } else {
            (available - head.permits) as nat
        };
        if head.abandoned || head.permits <= available {
            let then = drain_model(behind, left, order);
            lemma_drain_order(behind, left, order);
            lemma_drain(behind, left, order);
            if !head.abandoned {
                // Whoever is behind the head stands on the far side of it.
                assert forall|w: Waiter| behind.contains(w) implies (match order {
                    QueueProcessingOrder::OldestFirst => head.ticket < w.ticket,
                    QueueProcessingOrder::NewestFirst => head.ticket > w.ticket,
                }) by {
                    let k = choose|k: int| 0 <= k < behind.len() && behind[k] == w;
                    match order {
                        QueueProcessingOrder::OldestFirst => {
                            assert(q[k + 1] == w);
                        },
                        QueueProcessingOrder::NewestFirst => {
                            assert(q[k] == w);
                        },
                    }
                }
                assert forall|j: int| 0 <= j < then.rest.len() implies behind.contains(
                    #[trigger] then.rest[j],
                ) by {
                    match order {
                        QueueProcessingOrder::OldestFirst => {
                            assert(then.rest[j] == behind[behind.len() - then.rest.len() + j]);
                        },
                        QueueProcessingOrder::NewestFirst => {
                            assert(then.rest[j] == behind[j]);
                        },
                    }
                }
                assert forall|i: int| 0 < i < d.granted.len() implies #[trigger] d.granted[i]
                    == then.granted[i - 1] by {}
                match order {
                    QueueProcessingOrder::OldestFirst => {
                        assert forall|i: int, j: int|
                            0 <= i < j < d.granted.len() implies d.granted[i].ticket
                            < d.granted[j].ticket by {
                            assert(d.granted[j] == then.granted[j - 1]);
                            assert(behind.contains(then.granted[j - 1]));
                            if i > 0 {
                                assert(d.granted[i] == then.granted[i - 1]);
                            }
                        }
                        assert forall|i: int, j: int|
                            0 <= i < d.granted.len() && 0 <= j < d.rest.len() implies d.granted[i].ticket
                            < d.rest[j].ticket by {
                            assert(behind.contains(then.rest[j]));
                            if i > 0 {
                                assert(d.granted[i] == then.granted[i - 1]);
                            }
                        }
                    },
                    QueueProcessingOrder::NewestFirst => {
                        assert forall|i: int, j: int|
                            0 <= i < j < d.granted.len() implies d.granted[i].ticket
                            > d.granted[j].ticket by {
                            assert(d.granted[j] == then.granted[j - 1]);
                            assert(behind.contains(then.granted[j - 1]));
                            if i > 0 {
                                assert(d.granted[i] == then.granted[i - 1]);
                            }
                        }
                        assert forall|i: int, j: int|
                            0 <= i < d.granted.len() && 0 <= j < d.rest.len() implies d.granted[i].ticket
                            > d.rest[j].ticket by {
                            assert(behind.contains(then.rest[j]));
                            if i > 0 {
                                assert(d.granted[i] == then.granted[i - 1]);
                            }
                        }
                    },
                }
            }
        }
    }
}

/// Draining what a drain left, with what it left, changes nothing.
pub proof fn lemma_drain_settles(q: Seq<Waiter>, available: nat, order: QueueProcessingOrder)
    ensures
        ({
            let d = drain_model(q, available, order);
            drain_model(d.rest, (available - d.spent) as nat, order) == Drained {
                rest: d.rest,
                granted: Seq::empty(),
                spent: 0,
            }
        }),
{
    lemma_drain(q, available, order);
}

/// How many of the oldest waiters have to leave before a newcomer that asks
/// for `permits` fits under `limit`: the fewest that make room.
pub open spec fn eviction_count(q: Seq<Waiter>, permits: nat, limit: nat) -> nat
    decreases q.len(),
{
    if q.len() == 0 || total_permits(q) + permits <= limit {
        0
    } else {
        1 + eviction_count(q.subrange(1, q.len() as int), permits, limit)
    }
}

/// The eviction count is the least number of oldest waiters whose leaving
/// makes room, where the newcomer fits into an empty queue at all.
pub proof fn lemma_eviction_count(q: Seq<Waiter>, permits: nat, limit: nat)
    ensures
        ({
            let k = eviction_count(q, permits, limit);
            &&& k <= q.len()
            &&& permits <= limit ==> total_permits(q.subrange(k as int, q.len() as int)) + permits
                <= limit
            &&& forall|j: int|
                0 <= j < k ==> total_permits(#[trigger] q.subrange(j, q.len() as int)) + permits
                    > limit
        }),
    decreases q.len(),
{
    let k = eviction_count(q, permits, limit);
    assert(q.subrange(0, q.len() as int) == q);
    if q.len() == 0 || total_permits(q) + permits <= limit {
    } else {
        let tail = q.subrange(1, q.len() as int);
        lemma_eviction_count(tail, permits, limit);
        assert(tail.subrange(k - 1, tail.len() as int) == q.subrange(k as int, q.len() as int));
        assert forall|j: int| 0 <= j < k implies total_permits(
            #[trigger] q.subrange(j, q.len() as int),
        ) + permits > limit by {
            if j > 0 {
                assert(tail.subrange(j - 1, tail.len() as int) == q.subrange(j, q.len() as int));
            }
        }
    }
}

/// Whether a newcomer that asks for `permits` can be queued: there is room,
/// or room can be made by sending the oldest away.
pub open spec fn can_enqueue(
    q: Seq<Waiter>,
    permits: nat,
    limit: nat,
    order: QueueProcessingOrder,
    next_ticket: nat,
) -> bool {
    &&& permits >= 1
    &&& next_ticket < u64::MAX
    &&& (total_permits(q) + permits <= limit || (order == QueueProcessingOrder::NewestFirst
        && permits <= limit))
}

/// The place of the first waiter with the ticket, or the queue's length if
/// no waiter has it.
pub open spec fn position_of(q: Seq<Waiter>, ticket: u64) -> nat
    decreases q.len(),
{
    if q.len() == 0 {
        0
    } else if q[0].ticket == ticket {
        0
    } else {
        1 + position_of(q.subrange(1, q.len() as int), ticket)
    }
}

pub proof fn lemma_position_of(q: Seq<Waiter>, ticket: u64)
    ensures
        position_of(q, ticket) <= q.len(),
        position_of(q, ticket) < q.len() ==> q[position_of(q, ticket) as int].ticket == ticket,
        forall|i: int| 0 <= i < position_of(q, ticket) ==> (#[trigger] q[i]).ticket != ticket,
    decreases q.len(),
{
    if q.len() > 0 && q[0].ticket != ticket {
        let tail = q.subrange(1, q.len() as int);
        lemma_position_of(tail, ticket);
        assert forall|i: int| 0 <= i < position_of(q, ticket) implies (#[trigger] q[i]).ticket
            != ticket by {
            if i > 0 {
                assert(tail[i - 1] == q[i]);
            }
        }
    }
}

/// The place found by looking from the front is the place of the ticket.
pub proof fn lemma_position_found(q: Seq<Waiter>, ticket: u64, at: int)
    requires
        0 <= at <= q.len(),
        at < q.len() ==> q[at].ticket == ticket,
        forall|i: int| 0 <= i < at ==> (#[trigger] q[i]).ticket != ticket,
    ensures
        position_of(q, ticket) == at,
{
    lemma_position_of(q, ticket);
    let p = position_of(q, ticket) as int;
    if p < at {
        assert(q[p].ticket != ticket);
    } else if p > at {
        assert(q[at].ticket != ticket);
    }
}

/// A queue of waiting acquisitions with a limit on the permits they may ask
/// for together.
pub struct WaitQueue {
    waiters: VecDeque<Waiter>,
    queued: u32,
    limit: u32,
    order: QueueProcessingOrder,
    next_ticket: u64,
}

impl View for WaitQueue {
    type V = Seq<Waiter>;

    /// The waiters in arrival order, the oldest first.
    closed spec fn view(&self) -> Seq<Waiter> {
        self.waiters@
    }
}

impl WaitQueue {
    /// The most permits that the waiters may ask for together.
    pub closed spec fn limit(&self) -> nat {
        self.limit as nat
    }

    /// The order of service.
    pub closed spec fn order(&self) -> QueueProcessingOrder {
        self.order
    }

    /// The ticket that the next newcomer gets.
    pub closed spec fn next_ticket(&self) -> nat {
        self.next_ticket as nat
    }

    /// The queue keeps count of the permits asked for, and its waiters are
    /// as `queue_inv` says.
    pub closed spec fn wf(&self) -> bool {
        &&& self.queued == total_permits(self@)
        &&& queue_inv(self@, self.limit(), self.next_ticket())
    }

    pub proof fn lemma_wf(&self)
        requires
            self.wf(),
        ensures
            queue_inv(self@, self.limit(), self.next_ticket()),
    {
    }

    /// An empty queue.
    pub fn new(limit: u32, order: QueueProcessingOrder) -> (queue: WaitQueue)
        ensures
            queue.wf(),
            queue@ == Seq::<Waiter>::empty(),
            queue.limit() == limit,
            queue.order() == order,
            queue.next_ticket() == 0,
    {
        WaitQueue { waiters: VecDeque::new(), queued: 0, limit, order, next_ticket: 0 }
    }

    pub fn len(&self) -> (n: usize)
        ensures
            n == self@.len(),
    {
        self.waiters.len()
    }

    pub fn is_empty(&self) -> (b: bool)
        ensures
            b == (self@.len() == 0),
    {
        self.waiters.len() == 0
    }

    /// The permits that the waiters ask for together.
    pub fn queued_permits(&self) -> (n: u32)
        requires
            self.wf(),
        ensures
            n == total_permits(self@),
    {
        self.queued
    }

    pub fn queue_limit(&self) -> (n: u32)
        ensures
            n == self.limit(),
    {
        self.limit
    }

    pub fn processing_order(&self) -> (order: QueueProcessingOrder)
        ensures
            order == self.order(),
    {
        self.order
    }

    /// Whether a newcomer that asks for `permits` can be queued.
    pub fn accepts(&self, permits: u32) -> (b: bool)
        requires
            self.wf(),
        ensures
            b == can_enqueue(
                self@,
                permits as nat,
                self.limit(),
                self.order(),
                self.next_ticket(),
            ),
    {
        if permits == 0 || self.next_ticket == u64::MAX {
            return false;
        }
        let room = self.limit - self.queued;
        permits <= room || (self.order == QueueProcessingOrder::NewestFirst && permits
            <= self.limit)
    }

    /// Queues a newcomer at the back and returns its ticket and, oldest
    /// first, the waiters that had to leave to make room for it.
    pub fn enqueue(&mut self, permits: u32) -> (r: (u64, Vec<Waiter>))
        requires
            old(self).wf(),
            can_enqueue(
                old(self)@,
                permits as nat,
                old(self).limit(),
                old(self).order(),
                old(self).next_ticket(),
            ),
        ensures
            final(self).wf(),
            final(self).limit() == old(self).limit(),
            final(self).order() == old(self).order(),
            final(self).next_ticket() == old(self).next_ticket() + 1,
            r.0 == old(self).next_ticket(),
            ({
                let k = eviction_count(old(self)@, permits as nat, old(self).limit()) as int;
                &&& k <= old(self)@.len()
                &&& r.1@ == old(self)@.subrange(0, k)
                &&& final(self)@ == old(self)@.subrange(k, old(self)@.len() as int).push(
                    Waiter { ticket: r.0, permits, abandoned: false },
                )
            }),
    {
        let ghost q0 = self@;
        let ghost goal = eviction_count(q0, permits as nat, self.limit());
        let mut evicted: Vec<Waiter> = Vec::new();
        proof {
            assert(q0.subrange(0, 0) == Seq::<Waiter>::empty());
            assert(q0.subrange(0, q0.len() as int) == q0);
        }
        while self.waiters.len() > 0 && permits > self.limit - self.queued
            invariant
                self.wf(),
                self.limit == old(self).limit,
                self.order == old(self).order,
                self.next_ticket == old(self).next_ticket,
                q0 == old(self)@,
                goal == eviction_count(q0, permits as nat, self.limit()),
                evicted@.len() <= q0.len(),
                evicted@ == q0.subrange(0, evicted@.len() as int),
                self@ == q0.subrange(evicted@.len() as int, q0.len() as int),
                goal == evicted@.len() + eviction_count(self@, permits as nat, self.limit()),
            decreases self@.len(),
        {
            let ghost before = self@;
            let oldest = self.waiters.pop_front().unwrap();
            proof {
                lemma_total_split(before, 1);
                assert(before.subrange(0, 1) == seq![before[0]]);
                lemma_total_single(before[0]);
                assert(self@ == q0.subrange(evicted@.len() as int + 1, q0.len() as int));
            }
            self.queued = self.queued - oldest.permits;
            evicted.push(oldest);
            proof {
                assert(evicted@ == q0.subrange(0, evicted@.len() as int));
            }
        }
        let ticket = self.next_ticket;
        let newcomer = Waiter { ticket, permits, abandoned: false };
        proof {
            assert(eviction_count(self@, permits as nat, self.limit()) == 0);
            assert(self@.len() == 0 ==> total_permits(self@) == 0);
            let after = self@.push(newcomer);
            assert(after.drop_last() == self@);
            assert forall|i: int, j: int| 0 <= i < j < after.len() implies after[i].ticket
                < after[j].ticket by {
                if j == after.len() - 1 {
                    assert(after[i] == self@[i]);
                    assert(self@[i].ticket < self.next_ticket);
                } else {
                    assert(after[i] == self@[i] && after[j] == self@[j]);
                }
            }
            assert forall|i: int| 0 <= i < after.len() implies (#[trigger] after[i]).ticket
                < self.next_ticket + 1 && after[i].permits >= 1 by {
                if i < after.len() - 1 {
                    assert(after[i] == self@[i]);
                }
            }
        }
        self.waiters.push_back(newcomer);
        self.queued = self.queued + permits;
        self.next_ticket = self.next_ticket + 1;
        (ticket, evicted)
    }

    /// Takes the waiter with the ticket out of the queue, wherever it stands.
    pub fn remove(&mut self, ticket: u64) -> (removed: Option<Waiter>)
        requires
            old(self).wf(),
        ensures
            final(self).wf(),
            final(self).limit() == old(self).limit(),
            final(self).order() == old(self).order(),
            final(self).next_ticket() == old(self).next_ticket(),
            ({
                let at = position_of(old(self)@, ticket) as int;
                if at < old(self)@.len() {
                    &&& removed == Some(old(self)@[at])
                    &&& final(self)@ == old(self)@.remove(at)
                } else {
                    &&& removed is None
                    &&& final(self)@ == old(self)@
                }
            }),
    {
        let at = self.find(ticket);
        if at < self.waiters.len() {
            let ghost before = self@;
            let removed = self.waiters.remove(at).unwrap();
            proof {
                lemma_total_remove(before, at as int);
                assert forall|i: int| 0 <= i < self@.len() implies (#[trigger] self@[i]).ticket
                    < self.next_ticket && self@[i].permits >= 1 by {
                    if i < at {
                        assert(self@[i] == before[i]);
                    } else {
                        assert(self@[i] == before[i + 1]);
                    }
                }
                assert forall|i: int, j: int| 0 <= i < j < self@.len() implies self@[i].ticket
                    < self@[j].ticket by {
                    let a = if i < at { i } else { i + 1 };
                    let b = if j < at { j } else { j + 1 };
                    assert(self@[i] == before[a] && self@[j] == before[b]);
                }
            }
            self.queued = self.queued - removed.permits;
            Some(removed)
        } else {
            None
        }
    }

    /// Marks the waiter with the ticket as abandoned and says whether there
    /// was one. An abandoned waiter leaves the queue when it becomes the head.
    pub fn abandon(&mut self, ticket: u64) -> (found: bool)
        requires
            old(self).wf(),
        ensures
            final(self).wf(),
            final(self).limit() == old(self).limit(),
            final(self).order() == old(self).order(),
            final(self).next_ticket() == old(self).next_ticket(),
            ({
                let at = position_of(old(self)@, ticket) as int;
                if at < old(self)@.len() {
                    &&& found
                    &&& final(self)@ == old(self)@.update(
                        at,
                        Waiter { abandoned: true, ..old(self)@[at] },
                    )
                } else {
                    &&& !found
                    &&& final(self)@ == old(self)@
                }
            }),
    {
        let at = self.find(ticket);
        if at < self.waiters.len() {
            let ghost before = self@;
            let waiter = self.waiters.remove(at).unwrap();
            let marked = Waiter { abandoned: true, ..waiter };
            self.waiters.insert(at, marked);
            proof {
                assert(self@ =~= before.update(at as int, marked));
                lemma_total_update(before, at as int, marked);
                assert forall|i: int| 0 <= i < self@.len() implies (#[trigger] self@[i]).ticket
                    == before[i].ticket && self@[i].permits == before[i].permits by {}
            }
            true
        } else {
            false
        }
    }

    /// Serves the queue with `available` permits and returns the waiters
    /// that were granted theirs, in the order of the grants.
    pub fn drain(&mut self, available: u32) -> (granted: Vec<Waiter>)
        requires
            old(self).wf(),
        ensures
            final(self).wf(),
            final(self).limit() == old(self).limit(),
            final(self).order() == old(self).order(),
            final(self).next_ticket() == old(self).next_ticket(),
            final(self)@ == drain_model(old(self)@, available as nat, old(self).order()).rest,
            granted@ == drain_model(old(self)@, available as nat, old(self).order()).granted,
    {
        let ghost q0 = self@;
        let ghost goal = drain_model(q0, available as nat, self.order);
        let mut granted: Vec<Waiter> = Vec::new();
        let mut left = available;
        loop
            invariant
                self.wf(),
                self.limit == old(self).limit,
                self.order == old(self).order,
                self.next_ticket == old(self).next_ticket,
                goal == drain_model(q0, available as nat, self.order),
                goal.rest == drain_model(self@, left as nat, self.order).rest,
                goal.granted == granted@ + drain_model(self@, left as nat, self.order).granted,
            ensures
                goal.rest == self@,
                goal.granted == granted@,
            decreases self@.len(),
        {
            let n = self.waiters.len();
            if n == 0 {
                assert(granted@ + Seq::<Waiter>::empty() == granted@);
                break ;
            }
            let at = match self.order {
                QueueProcessingOrder::OldestFirst => 0,
                QueueProcessingOrder::NewestFirst => n - 1,
            };
            let head = self.waiters[at];
            let ghost before = self@;
            assert(head == head_of(before, self.order));
            if head.abandoned || head.permits <= left {
                match self.order {
                    QueueProcessingOrder::OldestFirst => {
                        self.waiters.pop_front();
                    },
                    QueueProcessingOrder::NewestFirst => {
                        self.waiters.pop_back();
                    },
                }
                proof {
                    assert(self@ == behind_head(before, self.order));
                    lemma_total_split(before, 1);
                    lemma_total_split(before, before.len() - 1);
                    lemma_total_single(head);
                    assert(before.subrange(0, 1) == seq![before[0]]);
                    assert(before.subrange(before.len() - 1, before.len() as int) == seq![
                        before[before.len() - 1],
                    ]);
                }
                self.queued = self.queued - head.permits;
                if !head.abandoned {
                    let ghost so_far = granted@;
                    let ghost then = drain_model(self@, (left - head.permits) as nat, self.order);
                    granted.push(head);
                    proof {
                        assert(granted@ + then.granted == so_far + (seq![head] + then.granted));
                    }
                    left = left - head.permits;
                }
            } else {
                assert(granted@ + Seq::<Waiter>::empty() == granted@);
                break ;
            }
        }
        granted
    }

    /// Empties the queue and returns the waiters that were in it, the
    /// oldest first.
    pub fn take_all(&mut self) -> (taken: Vec<Waiter>)
        requires
            old(self).wf(),
        ensures
            final(self).wf(),
            final(self).limit() == old(self).limit(),
            final(self).order() == old(self).order(),
            final(self).next_ticket() == old(self).next_ticket(),
            final(self)@ == Seq::<Waiter>::empty(),
            taken@ == old(self)@,
    {
        let ghost q0 = self@;
        let mut taken: Vec<Waiter> = Vec::new();
        while self.waiters.len() > 0
            invariant
                self.limit == old(self).limit,
                self.order == old(self).order,
                self.next_ticket == old(self).next_ticket,
                taken@.len() <= q0.len(),
                taken@ == q0.subrange(0, taken@.len() as int),
                self@ == q0.subrange(taken@.len() as int, q0.len() as int),
            decreases self@.len(),
        {
            let oldest = self.waiters.pop_front().unwrap();
            taken.push(oldest);
            proof {
                assert(self@ == q0.subrange(taken@.len() as int, q0.len() as int));
                assert(taken@ == q0.subrange(0, taken@.len() as int));
            }
        }
        self.queued = 0;
        proof {
            assert(taken@ == q0);
        }
        taken
    }

    /// The place of the first waiter with the ticket, or the queue's length.
    fn find(&self, ticket: u64) -> (at: usize)
        ensures
            at == position_of(self@, ticket),
            at <= self@.len(),
    {
        let mut at: usize = 0;
        while at < self.waiters.len()
            invariant
                at <= self.waiters.len(),
                forall|i: int| 0 <= i < at ==> (#[trigger] self@[i]).ticket != ticket,
            decreases self.waiters.len() - at,
        {
            if self.waiters[at].ticket == ticket {
                proof {
                    lemma_position_found(self@, ticket, at as int);
                }
                return at;
            }
            at += 1;
        }
        proof {
            lemma_position_found(self@, ticket, at as int);
        }
        at
    }
}

} // verus!
