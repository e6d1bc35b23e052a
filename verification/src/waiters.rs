//! The channels of those who wait.
//!
//! A request that waits gets the receiving half of a one-shot channel. The
//! sending half stays here under the request's ticket until the wait ends
//! and its outcome is sent.

use vstd::prelude::*;
use tokio::sync::oneshot::error::{RecvError, TryRecvError};
use tokio::sync::oneshot::{Receiver, Sender};
use tokio_util::sync::CancellationToken;
use crate::slots::{lemma_slot_found, lemma_slot_of, slot_of};

verus! {

/// The sending half of a one-shot channel of tokio. Nothing is known of
/// what is inside.
#[verifier::external_type_specification]
#[verifier::external_body]
#[verifier::reject_recursive_types(T)]
pub struct ExSender<T>(Sender<T>);

/// The receiving half of a one-shot channel of tokio. Nothing is known of
/// what is inside.
#[verifier::external_type_specification]
#[verifier::external_body]
#[verifier::reject_recursive_types(T)]
pub struct ExReceiver<T>(Receiver<T>);

/// Why `try_recv` of tokio gave no value. Nothing is known of it.
#[verifier::external_type_specification]
#[verifier::external_body]
pub struct ExTryRecvError(TryRecvError);

/// Why waiting at the receiving half of a one-shot channel of tokio gave no
/// value. Nothing is known of it.
#[verifier::external_type_specification]
#[verifier::external_body]
pub struct ExRecvError(RecvError);

/// The cancellation token of tokio_util. Nothing is known of what is inside.
#[verifier::external_type_specification]
#[verifier::external_body]
pub struct ExCancellationToken(CancellationToken);

/// `tokio::sync::oneshot::channel` makes the two halves of a channel.
/// Nothing is claimed of them.
pub assume_specification<T>[ tokio::sync::oneshot::channel::<T> ]() -> (halves: (
    Sender<T>,
    Receiver<T>,
));

/// `Sender::send` of tokio's one-shot channel hands the value to the
/// receiving half or gives it back. Claimed: a value that comes back is the
/// value that was sent. Whether it comes back depends on whether the
/// receiving half is still there, of which nothing is claimed. Sending
/// uses the sender up, so no sender is sent through twice.
pub assume_specification<T>[ Sender::<T>::send ](sender: Sender<T>, t: T) -> (r: Result<(), T>)
    ensures
        r matches Err(back) ==> back == t,
;

/// `Sender::is_closed` of tokio's one-shot channel says whether the
/// receiving half has gone. Nothing is claimed of the answer.
pub assume_specification<T>[ Sender::<T>::is_closed ](sender: &Sender<T>) -> (closed: bool);

/// `Receiver::try_recv` of tokio's one-shot channel takes the value if one
/// was sent. Nothing is claimed of the answer.
pub assume_specification<T>[ Receiver::<T>::try_recv ](receiver: &mut Receiver<T>) -> (r: Result<
    T,
    TryRecvError,
>);

/// `CancellationToken::is_cancelled` of tokio_util says whether the token
/// was cancelled. Nothing is claimed of the answer.
pub assume_specification[ CancellationToken::is_cancelled ](token: &CancellationToken) -> (cancelled:
    bool);

/// The tickets without the first one that equals `ticket`.
pub open spec fn without_ticket(tickets: Seq<u64>, ticket: u64) -> Seq<u64> {
    if slot_of(tickets, ticket) < tickets.len() {
        tickets.remove(slot_of(tickets, ticket) as int)
    } else {
        tickets
    }
}

/// The tickets without those of `gone`, which are taken out one after the
/// other, each where it first stands.
pub open spec fn without_tickets(tickets: Seq<u64>, gone: Seq<u64>) -> Seq<u64>
    decreases gone.len(),
{
    if gone.len() == 0 {
        tickets
    } else {
        without_ticket(without_tickets(tickets, gone.drop_last()), gone.last())
    }
}

/// The tickets whose flag is set, in their order. The flag of a ticket is
/// the one at its place; a ticket without a flag counts as not flagged.
pub open spec fn flagged(tickets: Seq<u64>, flags: Seq<bool>) -> Seq<u64>
    decreases tickets.len(),
{
    if tickets.len() == 0 {
        Seq::empty()
    } else {
        let before = flagged(tickets.drop_last(), flags);
        if tickets.len() - 1 < flags.len() && flags[tickets.len() - 1] {
            before.push(tickets.last())
        } else {
            before
        }
    }
}

/// The flagged tickets are no more than the tickets, and each of them is
/// one of the tickets.
pub proof fn lemma_flagged(tickets: Seq<u64>, flags: Seq<bool>)
    ensures
        flagged(tickets, flags).len() <= tickets.len(),
        forall|i: int|
            0 <= i < flagged(tickets, flags).len() ==> tickets.contains(
                #[trigger] flagged(tickets, flags)[i],
            ),
    decreases tickets.len(),
{
    if tickets.len() > 0 {
        let front = tickets.drop_last();
        lemma_flagged(front, flags);
        let before = flagged(front, flags);
        assert forall|i: int| 0 <= i < flagged(tickets, flags).len() implies tickets.contains(
            #[trigger] flagged(tickets, flags)[i],
        ) by {
            if i < before.len() {
                assert(flagged(tickets, flags)[i] == before[i]);
                assert(front.contains(before[i]));
                let k = choose|k: int| 0 <= k < front.len() && front[k] == before[i];
                assert(tickets[k] == before[i]);
            } else {
                assert(flagged(tickets, flags)[i] == tickets[tickets.len() - 1]);
            }
        }
    }
}

/// The sending halves of the channels of those who wait, by ticket.
#[verifier::reject_recursive_types(T)]
pub struct Subscribers<T> {
    tickets: Vec<u64>,
    senders: Vec<Sender<T>>,
}

impl<T> View for Subscribers<T> {
    type V = Seq<u64>;

    /// The tickets under which somebody is subscribed, in the order in
    /// which they subscribed.
    closed spec fn view(&self) -> Seq<u64> {
        self.tickets@
    }
}

impl<T> Subscribers<T> {
    /// There is a sending half for every ticket.
    pub closed spec fn wf(&self) -> bool {
        self.tickets@.len() == self.senders@.len()
    }

    pub fn new() -> (subscribers: Subscribers<T>)
        ensures
            subscribers.wf(),
            subscribers@ == Seq::<u64>::empty(),
    {
        Subscribers { tickets: Vec::new(), senders: Vec::new() }
    }

    /// How many are subscribed.
    pub fn len(&self) -> (n: usize)
        ensures
            n == self@.len(),
    {
        self.tickets.len()
    }

    /// The place of the first subscriber with the ticket, or the number of
    /// subscribers if there is none.
    fn find(&self, ticket: u64) -> (at: usize)
        ensures
            at == slot_of(self@, ticket),
            at <= self@.len(),
    {
        let mut at: usize = 0;
        while at < self.tickets.len()
            invariant
                at <= self.tickets.len(),
                forall|i: int| 0 <= i < at ==> self.tickets@[i] != ticket,
            decreases self.tickets.len() - at,
        {
            if self.tickets[at] == ticket {
                proof {
                    lemma_slot_found(self.tickets@, ticket, at as int);
                }
                return at;
            }
            at += 1;
        }
        proof {
            lemma_slot_found(self.tickets@, ticket, at as int);
        }
        at
    }

    /// Opens a channel for the ticket, keeps its sending half and hands
    /// out its receiving half.
    pub fn subscribe(&mut self, ticket: u64) -> (receiver: Receiver<T>)
        requires
            old(self).wf(),
        ensures
            final(self).wf(),
            final(self)@ == old(self)@.push(ticket),
    {
        let (sender, receiver) = tokio::sync::oneshot::channel();
        self.tickets.push(ticket);
        self.senders.push(sender);
        receiver
    }

    /// Drops the sending half that is kept for the ticket and says whether
    /// there was one.
    pub fn unsubscribe(&mut self, ticket: u64) -> (found: bool)
        requires
            old(self).wf(),
        ensures
            final(self).wf(),
            final(self)@ == without_ticket(old(self)@, ticket),
            found == old(self)@.contains(ticket),
    {
        proof {
            lemma_slot_of(self@, ticket);
        }
        let at = self.find(ticket);
        if at < self.tickets.len() {
            self.tickets.remove(at);
            let _ = self.senders.remove(at);
            true
        } else {
            false
        }
    }

    /// Sends `payload` to whoever is subscribed under the ticket, who is
    /// subscribed no longer then. Where nobody is, or whoever was has gone,
    /// the payload comes back.
    pub fn deliver(&mut self, ticket: u64, payload: T) -> (undelivered: Option<T>)
        requires
            old(self).wf(),
        ensures
            final(self).wf(),
            final(self)@ == without_ticket(old(self)@, ticket),
            undelivered matches Some(back) ==> back == payload,
            !old(self)@.contains(ticket) ==> undelivered == Some(payload),
    {
        proof {
            lemma_slot_of(self@, ticket);
        }
        let at = self.find(ticket);
        if at < self.tickets.len() {
            self.tickets.remove(at);
            let sender = self.senders.remove(at);
            match sender.send(payload) {
                Ok(()) => None,
                Err(back) => Some(back),
            }
        } else {
            Some(payload)
        }
    }

    /// For each subscriber, in the order in which they subscribed, whether
    /// its receiving half is gone.
    pub fn closed_flags(&self) -> (flags: Vec<bool>)
        requires
            self.wf(),
        ensures
            flags@.len() == self@.len(),
    {
        let mut flags: Vec<bool> = Vec::new();
        let mut i: usize = 0;
        while i < self.senders.len()
            invariant
                self.wf(),
                i <= self.senders.len(),
                flags@.len() == i,
            decreases self.senders.len() - i,
        {
            flags.push(self.senders[i].is_closed());
            i += 1;
        }
        flags
    }

    /// The tickets of the subscribers whose flag is set, in the order in
    /// which they subscribed.
    pub fn flagged_tickets(&self, flags: &Vec<bool>) -> (picked: Vec<u64>)
        requires
            self.wf(),
        ensures
            picked@ == flagged(self@, flags@),
    {
        let mut picked: Vec<u64> = Vec::new();
        let mut i: usize = 0;
        proof {
            assert(self@.subrange(0, 0) =~= Seq::<u64>::empty());
        }
        while i < self.tickets.len()
            invariant
                i <= self.tickets.len(),
                picked@ == flagged(self@.subrange(0, i as int), flags@),
            decreases self.tickets.len() - i,
        {
            proof {
                let upto = self@.subrange(0, i + 1);
                assert(upto.drop_last() =~= self@.subrange(0, i as int));
                assert(upto.last() == self@[i as int]);
            }
            if i < flags.len() && flags[i] {
                picked.push(self.tickets[i]);
            }
            i += 1;
        }
        proof {
            assert(self@.subrange(0, i as int) =~= self@);
        }
        picked
    }

    /// The tickets of the subscribers whose receiving half is gone, in the
    /// order in which they subscribed. Which of the receiving halves are
    /// gone is for the channels to say: the tickets are those that
    /// `flagged_tickets` picks for the answers of the channels.
    pub fn closed(&self) -> (gone: Vec<u64>)
        requires
            self.wf(),
        ensures
            exists|flags: Seq<bool>|
                flags.len() == self@.len() && gone@ == #[trigger] flagged(self@, flags),
            gone@.len() <= self@.len(),
            forall|i: int| 0 <= i < gone@.len() ==> self@.contains(#[trigger] gone@[i]),
    {
        let flags = self.closed_flags();
        let gone = self.flagged_tickets(&flags);
        proof {
            lemma_flagged(self@, flags@);
            assert(flags@.len() == self@.len() && gone@ == flagged(self@, flags@));
        }
        gone
    }
}

/// Whether the token, if there is one, was cancelled.
pub fn cancellation_set(token: Option<&CancellationToken>) -> (cancelled: bool)
    ensures
        token is None ==> !cancelled,
{
    match token {
        Some(token) => token.is_cancelled(),
        None => false,
    }
}

} // verus!
