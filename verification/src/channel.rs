//! Multiple-producer single-consumer channel for communication between
//! simulation models.
//!
//! Wakers are designated by numbers: each operation returns those that must be
//! invoked on its behalf.

pub mod event;
pub mod queue;

use vstd::prelude::*;

use crate::util::bits::max_capacity;
use event::{Event, WaitEvent, WaitSet, WaitUntil};
use queue::{MessageBorrow, PopError, PushError, Queue, Transfer};

verus! {

/// An error returned when an attempt to send a message is unsuccessful.
#[derive(Clone, Copy, Debug, PartialEq, Eq, Structural)]
pub struct SendError;

impl SendError {
    /// The description of the error.
    pub fn to_text(&self) -> (text: String)
        ensures
            text@ == "sending message into a closed mailbox"@,
    {
        "sending message into a closed mailbox".to_owned()
    }
}

/// An error returned when an attempt to receive a message is unsuccessful.
#[derive(Clone, Copy, Debug, PartialEq, Eq, Structural)]
pub struct RecvError;

impl RecvError {
    /// The description of the error.
    pub fn to_text(&self) -> (text: String)
        ensures
            text@ == "receiving from a closed channel"@,
    {
        "receiving from a closed channel".to_owned()
    }
}

/// A message that can be taken once.
pub struct MessageFnOnce<F> {
    msg_fn: Option<F>,
}

impl<F> MessageFnOnce<F> {
    /// The message, unless it was taken.
    pub closed spec fn content(self) -> Option<F> {
        self.msg_fn
    }

    /// Wraps a message.
    pub fn new(msg_fn: F) -> (message: Self)
        ensures
            message.content() == Some(msg_fn),
    {
        MessageFnOnce { msg_fn: Some(msg_fn) }
    }

    /// Takes the message, which must not have been taken before.
    pub fn take_once(&mut self) -> (msg_fn: F)
        requires
            old(self).content() is Some,
        ensures
            Some(msg_fn) == old(self).content(),
            final(self).content() is None,
    {
        self.msg_fn.take().unwrap()
    }
}

/// The state of a send operation after it was polled.
#[derive(Clone, Copy, Debug, PartialEq, Eq, Structural)]
pub enum SendPoll {
    /// The channel is full: the operation waits for some space.
    Pending,
    /// The message was sent. The given waker of the receiver, if any, must be
    /// invoked.
    Sent(Option<u64>),
    /// The channel is closed.
    Failed(SendError),
}

/// A message that is being sent.
pub struct SendOp<T> {
    wait: WaitUntil,
    message: Option<T>,
}

impl<T> SendOp<T> {
    /// The message, unless the operation has completed.
    pub closed spec fn message(self) -> Option<T> {
        self.message
    }

    /// The wait for space in the channel.
    pub closed spec fn wait(self) -> WaitUntil {
        self.wait
    }

    /// The operation can be polled further.
    pub open spec fn active_in(self, wait_set: WaitSet) -> bool {
        &&& self.message() is Some
        &&& self.wait().state() !is Completed
        &&& self.wait().phase() is Idle
        &&& self.wait().valid_in(wait_set)
    }
}

/// The state of a receive operation after it was polled.
pub enum RecvPoll<T> {
    /// There is no message: the receiver must suspend until its waker is
    /// invoked.
    Pending,
    /// A message is available.
    Received(MessageBorrow<T>),
    /// The channel is closed and empty.
    Failed(RecvError),
}

/// Data shared between the receiver and the senders.
pub struct Channel<T> {
    /// Internal queue.
    queue: Queue<T>,
    /// Waker of the receiver, if it waits for a message.
    receiver_waker: Option<u64>,
    /// Signalling primitive used to notify one or several senders.
    sender_signal: Event,
    /// Current count of live senders.
    sender_count: usize,
}

impl<T> Channel<T> {
    /// The internal queue.
    pub closed spec fn queue(self) -> Queue<T> {
        self.queue
    }

    /// The messages waiting to be received, oldest first.
    pub open spec fn messages(self) -> Seq<T> {
        self.queue().messages()
    }

    /// Whether the channel is closed.
    pub open spec fn closed(self) -> bool {
        self.queue().closed()
    }

    /// The waker of the receiver, if it waits for a message.
    pub closed spec fn receiver_waker(self) -> Option<u64> {
        self.receiver_waker
    }

    /// The senders that wait for space in the channel.
    pub closed spec fn waiting_senders(self) -> WaitSet {
        self.sender_signal.wait_set()
    }

    /// The number of senders.
    pub closed spec fn senders(self) -> nat {
        self.sender_count as nat
    }

    /// The invariant of the channel.
    pub closed spec fn wf(self) -> bool {
        &&& self.queue.wf()
        &&& self.sender_signal.wf()
        &&& self.receiver_waker is Some ==> self.queue.messages().len() == 0
        // Messages are lent one at a time.
        &&& forall|n: nat| #[trigger] self.queue.lent(n) ==> n + 1 == self.queue.popped()
        // As long as senders wait, each free slot is meant for a notified sender.
        &&& !self.closed() && self.waiting_senders().waiting().len() > 0 ==> self.free_slots()
            <= self.waiting_senders().notified().len()
    }

    /// The number of slots that are neither taken by a waiting message nor by a
    /// message that is still lent.
    pub open spec fn free_slots(self) -> int {
        self.queue().capacity() - self.messages().len() - (if self.queue().nothing_lent() {
            0int
        } else {
            1int
        })
    }

    proof fn lemma_room(self)
        requires
            self.wf(),
        ensures
            self.queue().has_room() <==> self.free_slots() > 0,
    {
        if !self.queue.nothing_lent() {
            let n = choose|n: nat| #[trigger] self.queue.lent(n);
            assert(n + 1 == self.queue.popped());
        }
    }

    /// Creates a new channel with the specified capacity and no sender.
    ///
    /// The capacity must be 1 or greater. It is bounded by the largest
    /// allocation.
    pub fn new(capacity: usize) -> (channel: Self)
        requires
            1 <= capacity <= max_capacity(),
        ensures
            channel.wf(),
            channel.queue().capacity() == capacity,
            channel.queue().nothing_lent(),
            channel.queue().popped() == 0,
            channel.messages() == Seq::<T>::empty(),
            !channel.closed(),
            channel.senders() == 0,
            channel.receiver_waker() is None,
            channel.waiting_senders().waiting() == Seq::<usize>::empty(),
    {
        Channel {
            queue: Queue::new(capacity),
            receiver_waker: None,
            sender_signal: Event::new(),
            sender_count: 0,
        }
    }

    /// Accounts for a new sender.
    pub fn add_sender(&mut self)
        requires
            old(self).wf(),
            old(self).senders() < usize::MAX,
        ensures
            final(self).wf(),
            final(self).senders() == old(self).senders() + 1,
            final(self).queue() == old(self).queue(),
            final(self).receiver_waker() == old(self).receiver_waker(),
            final(self).waiting_senders() == old(self).waiting_senders(),
    {
        self.sender_count += 1;
    }

    /// Begins to send a message.
    pub fn send(&self, message: T) -> (op: SendOp<T>)
        ensures
            op.message() == Some(message),
            op.active_in(self.waiting_senders()),
            op.wait().state() is Uninit,
    {
        SendOp { wait: self.sender_signal.wait_until(), message: Some(message) }
    }

    /// Attempts to put a message in the queue; returns whether the attempt is
    /// final and whether the message was sent.
    fn attempt(&mut self, op: &mut SendOp<T>) -> (r: (bool, bool))
        requires
            old(self).queue.wf(),
            old(op).message() is Some,
        ensures
            final(self).queue.wf(),
            final(self).sender_signal == old(self).sender_signal,
            final(self).sender_count == old(self).sender_count,
            final(self).receiver_waker == old(self).receiver_waker,
            final(op).wait == old(op).wait,
            r.0 == (old(self).closed() || old(self).queue().has_room()),
            r.1 == (!old(self).closed() && old(self).queue().has_room()),
            final(op).message() == (if r.0 {
                None
            } else {
                old(op).message()
            }),
            Self::queue_after_push(
                old(self).queue(),
                old(op).message()->Some_0,
                r.1,
                final(self).queue(),
            ),
    {
        match self.queue.push(op.message.take().unwrap()) {
            Ok(()) => (true, true),
            Err(PushError::Full(message)) => {
                // Keep the message for a later attempt.
                op.message = Some(message);
                (false, false)
            },
            Err(PushError::Closed) => (true, false),
        }
    }

    /// The queue after an attempt to push a message.
    pub open spec fn queue_after_push(
        before: Queue<T>,
        message: T,
        sent: bool,
        after: Queue<T>,
    ) -> bool {
        &&& after.capacity() == before.capacity()
        &&& after.closed() == before.closed()
        &&& after.popped() == before.popped()
        &&& forall|n: nat| #[trigger] after.lent(n) == before.lent(n)
        &&& forall|b: MessageBorrow<T>| #[trigger] after.lends(b) == before.lends(b)
        &&& after.messages() == (if sent {
            before.messages().push(message)
        } else {
            before.messages()
        })
    }

    /// Advances a send operation on behalf of the task with the given waker.
    ///
    /// The message is put in the queue as soon as there is room for it. Until
    /// then the operation is enlisted behind the other waiting senders.
    pub fn poll_send(&mut self, op: &mut SendOp<T>, waker: u64) -> (poll: SendPoll)
        requires
            old(self).wf(),
            old(op).active_in(old(self).waiting_senders()),
        ensures
            final(self).wf(),
            final(self).senders() == old(self).senders(),
            Self::queue_after_push(
                old(self).queue(),
                old(op).message()->Some_0,
                poll is Sent,
                final(self).queue(),
            ),
            if old(self).closed() {
                &&& poll is Failed
                &&& final(self).receiver_waker() == old(self).receiver_waker()
            } else if old(self).queue().has_room() {
                &&& poll == SendPoll::Sent(old(self).receiver_waker())
                &&& final(self).receiver_waker() is None
            } else {
                &&& poll is Pending
                &&& final(op).active_in(final(self).waiting_senders())
                &&& final(op).message() == old(op).message()
                &&& final(self).receiver_waker() == old(self).receiver_waker()
                &&& final(op).wait().state() is Polled
                &&& final(self).waiting_senders().waiting() == (match old(op).wait().state() {
                    event::WaitUntilState::Polled(notifier) => event::without(
                        old(self).waiting_senders().waiting(),
                        notifier,
                    ),
                    _ => old(self).waiting_senders().waiting(),
                }).push(final(op).wait().state()->Polled_0)
                &&& final(self).waiting_senders().waker(final(op).wait().state()->Polled_0)
                    == Some(waker)
            },
            poll !is Pending ==> {
                &&& final(op).message() is None
                &&& final(op).wait().state() is Completed
                &&& final(self).waiting_senders().waiting() == (match old(op).wait().state() {
                    event::WaitUntilState::Polled(notifier) => event::without(
                        old(self).waiting_senders().waiting(),
                        notifier,
                    ),
                    _ => old(self).waiting_senders().waiting(),
                })
            },
    {
        let ghost state = op.wait.state();
        self.sender_signal.poll(&mut op.wait, WaitEvent::Poll(waker));
        let (done, sent) = self.attempt(op);
        self.sender_signal.poll(&mut op.wait, WaitEvent::Checked(done));
        proof {
            old(self).lemma_room();
            assert(self.queue.nothing_lent() == old(self).queue.nothing_lent()) by {
                assert(forall|n: nat| self.queue.lent(n) == old(self).queue.lent(n));
            }
        }
        if done {
            proof {
                let before = old(self).waiting_senders();
                let after = self.waiting_senders();
                match state {
                    event::WaitUntilState::Polled(notifier) => {
                        WaitSet::lemma_at_most_one_less_notified(before, notifier, after);
                    },
                    _ => {
                        assert(after.notified() =~= before.notified());
                    },
                }
            }
            return self.sent(sent);
        }
        // The channel is borrowed exclusively, so the outcome of a second
        // attempt would be the same.
        self.sender_signal.poll(&mut op.wait, WaitEvent::Checked(false));
        SendPoll::Pending
    }

    /// Notifies the receiver if a message was sent.
    fn sent(&mut self, sent: bool) -> (poll: SendPoll)
        ensures
            final(self).queue == old(self).queue,
            final(self).sender_signal == old(self).sender_signal,
            final(self).sender_count == old(self).sender_count,
            poll == (if sent {
                SendPoll::Sent(old(self).receiver_waker())
            } else {
                SendPoll::Failed(SendError)
            }),
            final(self).receiver_waker() == (if sent {
                None
            } else {
                old(self).receiver_waker()
            }),
    {
        if sent {
            SendPoll::Sent(self.receiver_waker.take())
        } else {
            SendPoll::Failed(SendError)
        }
    }

    /// Abandons a send operation.
    ///
    /// If the operation was already notified that there is room, another
    /// waiting sender is notified instead: its waker, if any, is returned.
    pub fn abandon_send(&mut self, op: SendOp<T>) -> (woken: Option<u64>)
        requires
            old(self).wf(),
            op.wait().valid_in(old(self).waiting_senders()),
        ensures
            final(self).wf(),
            final(self).senders() == old(self).senders(),
            final(self).queue() == old(self).queue(),
            final(self).receiver_waker() == old(self).receiver_waker(),
            match op.wait().state() {
                event::WaitUntilState::Polled(notifier) => event::cancelled(
                    old(self).waiting_senders(),
                    notifier,
                    woken,
                    final(self).waiting_senders(),
                ),
                _ => woken is None && final(self).waiting_senders() == old(
                    self).waiting_senders(),
            },
    {
        let mut op = op;
        let ghost state = op.wait.state();
        let woken = self.sender_signal.abandon(&mut op.wait);
        proof {
            if let event::WaitUntilState::Polled(notifier) = state {
                if self.waiting_senders().waiting().len() > 0 {
                    WaitSet::lemma_not_less_notified(
                        old(self).waiting_senders(),
                        notifier,
                        woken,
                        self.waiting_senders(),
                    );
                }
            }
        }
        woken
    }

    /// Attempts to receive a message on behalf of the task with the given
    /// waker.
    ///
    /// The previous message must have been consumed with
    /// [`consume`](Channel::consume).
    pub fn poll_recv(&mut self, waker: u64) -> (poll: RecvPoll<T>)
        requires
            old(self).wf(),
            old(self).queue().nothing_lent(),
        ensures
            final(self).wf(),
            final(self).senders() == old(self).senders(),
            final(self).waiting_senders() == old(self).waiting_senders(),
            final(self).queue().capacity() == old(self).queue().capacity(),
            final(self).closed() == old(self).closed(),
            match poll {
                RecvPoll::Received(borrow) => {
                    &&& old(self).messages().len() > 0
                    &&& borrow.message() == old(self).messages()[0]
                    &&& final(self).messages() == old(self).messages().drop_first()
                    &&& final(self).queue().lends(borrow)
                    &&& forall|n: nat| #[trigger]
                        final(self).queue().lent(n) == (n == borrow.position())
                    &&& final(self).receiver_waker() is None
                },
                RecvPoll::Failed(_) => {
                    &&& old(self).messages().len() == 0
                    &&& old(self).closed()
                    &&& final(self).queue() == old(self).queue()
                    &&& final(self).receiver_waker() is None
                },
                RecvPoll::Pending => {
                    &&& old(self).messages().len() == 0
                    &&& !old(self).closed()
                    &&& final(self).queue() == old(self).queue()
                    &&& final(self).receiver_waker() == Some(waker)
                },
            },
    {
        match self.queue.pop() {
            Ok(borrow) => {
                assert(self.queue.lent(borrow.position()));
                self.receiver_waker = None;
                RecvPoll::Received(borrow)
            },
            Err(PopError::Empty) => {
                self.receiver_waker = Some(waker);
                RecvPoll::Pending
            },
            Err(PopError::Closed) => {
                self.receiver_waker = None;
                RecvPoll::Failed(RecvError)
            },
        }
    }

    /// Consumes a received message.
    ///
    /// Its slot is freed and one waiting sender is notified that a slot is
    /// available: the waker of that sender, if any, is returned as well.
    pub fn consume(&mut self, borrow: MessageBorrow<T>) -> (r: (T, Vec<u64>))
        requires
            old(self).wf(),
            old(self).queue().lends(borrow),
        ensures
            final(self).wf(),
            r.0 == borrow.message(),
            final(self).senders() == old(self).senders(),
            final(self).receiver_waker() == old(self).receiver_waker(),
            final(self).queue().capacity() == old(self).queue().capacity(),
            final(self).closed() == old(self).closed(),
            final(self).messages() == old(self).messages(),
            forall|n: nat| #[trigger]
                final(self).queue().lent(n) == (old(self).queue().lent(n) && n
                    != borrow.position()),
            Self::senders_notified(
                old(self).waiting_senders(),
                1,
                r.1@,
                final(self).waiting_senders(),
            ),
    {
        proof {
            self.queue.lemma_lends(borrow);
        }
        let message = self.queue.release(borrow);
        let wakers = self.sender_signal.notify(1);
        proof {
            assert forall|n: nat| !#[trigger] self.queue.lent(n) by {
                if self.queue.lent(n) {
                    assert(old(self).queue.lent(n));
                }
            }
            let waiting = old(self).waiting_senders().waiting();
            if waiting.len() > 0 {
                assert(waiting.skip(1) =~= waiting.drop_first());
                WaitSet::lemma_one_more_notified(
                    old(self).waiting_senders(),
                    self.waiting_senders(),
                );
            }
        }
        (message, wakers)
    }

    /// Whether waiting senders were notified, up to the given number of them,
    /// starting with the one that has waited for longest.
    pub open spec fn senders_notified(
        before: WaitSet,
        count: int,
        wakers: Seq<u64>,
        after: WaitSet,
    ) -> bool {
        let taken = if count <= before.waiting().len() {
            count
        } else {
            before.waiting().len() as int
        };
        &&& after.same_notifiers(before)
        &&& after.waiting() == before.waiting().skip(taken)
        &&& wakers == before.front_wakers(taken)
    }

    /// Closes the channel on behalf of the receiver.
    ///
    /// This prevents any further messages from being sent to the channel.
    /// Messages that were already sent can still be received. If the channel
    /// was open, all waiting senders are notified: their wakers are returned.
    pub fn close_by_receiver(&mut self) -> (wakers: Vec<u64>)
        requires
            old(self).wf(),
        ensures
            final(self).wf(),
            final(self).closed(),
            Self::only_closed(*old(self), *final(self)),
            final(self).receiver_waker() == old(self).receiver_waker(),
            old(self).closed() ==> wakers@.len() == 0 && final(self).waiting_senders() == old(
                self).waiting_senders(),
            !old(self).closed() ==> Self::senders_notified(
                old(self).waiting_senders(),
                usize::MAX as int,
                wakers@,
                final(self).waiting_senders(),
            ),
    {
        if !self.queue.is_closed() {
            self.queue.close();
            self.sender_signal.notify(usize::MAX)
        } else {
            Vec::new()
        }
    }

    /// Whether the messages and the senders are the same in two states of a
    /// channel.
    pub open spec fn only_closed(before: Self, after: Self) -> bool {
        &&& after.senders() == before.senders()
        &&& after.queue().capacity() == before.queue().capacity()
        &&& after.queue().popped() == before.queue().popped()
        &&& after.messages() == before.messages()
        &&& forall|n: nat| #[trigger] after.queue().lent(n) == before.queue().lent(n)
        &&& forall|b: MessageBorrow<T>| #[trigger]
            after.queue().lends(b) == before.queue().lends(b)
    }

    /// Closes the channel because the receiver goes away.
    ///
    /// All waiting senders are notified: their wakers are returned.
    pub fn drop_receiver(&mut self) -> (wakers: Vec<u64>)
        requires
            old(self).wf(),
        ensures
            final(self).wf(),
            final(self).closed(),
            Self::only_closed(*old(self), *final(self)),
            final(self).receiver_waker() == old(self).receiver_waker(),
            Self::senders_notified(
                old(self).waiting_senders(),
                usize::MAX as int,
                wakers@,
                final(self).waiting_senders(),
            ),
    {
        self.queue.close();
        self.sender_signal.notify(usize::MAX)
    }

    /// Closes the channel on behalf of a sender.
    ///
    /// This prevents any further messages from being sent. Messages that were
    /// already sent can still be received. The receiver and all waiting
    /// senders are notified: their wakers are returned.
    pub fn close_by_sender(&mut self) -> (r: (Option<u64>, Vec<u64>))
        requires
            old(self).wf(),
        ensures
            final(self).wf(),
            final(self).closed(),
            Self::only_closed(*old(self), *final(self)),
            r.0 == old(self).receiver_waker(),
            final(self).receiver_waker() is None,
            Self::senders_notified(
                old(self).waiting_senders(),
                usize::MAX as int,
                r.1@,
                final(self).waiting_senders(),
            ),
    {
        self.queue.close();
        let receiver = self.receiver_waker.take();
        let senders = self.sender_signal.notify(usize::MAX);
        (receiver, senders)
    }

    /// Accounts for a sender that goes away.
    ///
    /// If this was the last one and the channel is open, the channel is closed
    /// and the receiver is notified: its waker, if any, is returned.
    pub fn drop_sender(&mut self) -> (woken: Option<u64>)
        requires
            old(self).wf(),
            old(self).senders() > 0,
        ensures
            final(self).wf(),
            final(self).senders() == old(self).senders() - 1,
            final(self).waiting_senders() == old(self).waiting_senders(),
            final(self).messages() == old(self).messages(),
            final(self).queue().capacity() == old(self).queue().capacity(),
            final(self).queue().popped() == old(self).queue().popped(),
            forall|n: nat| #[trigger]
                final(self).queue().lent(n) == old(self).queue().lent(n),
            if old(self).senders() == 1 && !old(self).closed() {
                &&& final(self).closed()
                &&& woken == old(self).receiver_waker()
                &&& final(self).receiver_waker() is None
            } else {
                &&& final(self).queue() == old(self).queue()
                &&& woken is None
                &&& final(self).receiver_waker() == old(self).receiver_waker()
            },
    {
        self.sender_count -= 1;
        if self.sender_count == 0 && !self.queue.is_closed() {
            self.queue.close();
            self.receiver_waker.take()
        } else {
            None
        }
    }

    /// Checks if the channel is closed.
    pub fn is_closed(&self) -> (r: bool)
        requires
            self.wf(),
        ensures
            r == self.closed(),
    {
        self.queue.is_closed()
    }

    /// Returns the number of messages waiting in the channel.
    pub fn len(&self) -> (len: usize)
        requires
            self.wf(),
        ensures
            len == self.messages().len(),
    {
        self.queue.len()
    }

    /// The queues of a succession of channels.
    pub open spec fn queues(states: Seq<Self>) -> Seq<Queue<T>> {
        states.map_values(|channel: Self| channel.queue())
    }

    /// Causal messaging: whoever the senders are, a message that was sent before
    /// another one is received before it.
    ///
    /// The channel goes through the given states; each transfer is the effect of
    /// a call on the messages. This holds in particular if a model sends two
    /// messages in turn, but also if the second one is sent by another model as
    /// a consequence of something that happened after the first one was sent.
    pub proof fn law_causal_messaging(
        states: Seq<Self>,
        transfers: Seq<Transfer<T>>,
        first: int,
        second: int,
    )
        requires
            Queue::history(Self::queues(states), transfers),
            states[0].messages().len() == 0,
            0 <= first < second < transfers.len(),
            transfers[first] is Push,
            transfers[second] is Push,
        ensures
            ({
                let received = Queue::popped_by(transfers);
                let first_place = Queue::pushed_by(transfers.take(first)).len() as int;
                let second_place = Queue::pushed_by(transfers.take(second)).len() as int;
                &&& first_place < second_place
                &&& first_place < received.len() ==> received[first_place]
                    == transfers[first]->Push_0
                &&& second_place < received.len() ==> received[second_place]
                    == transfers[second]->Push_0
            }),
    {
        Queue::law_order_is_kept(Self::queues(states), transfers, first, second);
    }

    /// No wake-up is lost: as long as the channel is open and senders wait for
    /// space, there are no more free slots than there are other senders that were
    /// notified and have not sent their message nor abandoned the operation since
    /// then. When there are none, the channel is full.
    pub proof fn law_senders_never_wait_in_vain(self)
        requires
            self.wf(),
            !self.closed(),
            self.waiting_senders().waiting().len() > 0,
        ensures
            self.free_slots() <= self.waiting_senders().notified().len(),
            self.queue().has_room() <==> self.free_slots() > 0,
            self.waiting_senders().notified().is_empty() ==> !self.queue().has_room(),
    {
        self.lemma_room();
    }

    /// There is room for a message if and only if the waiting messages, along with
    /// the one that is still lent if there is one, do not take up all slots.
    pub proof fn law_room(self)
        requires
            self.wf(),
        ensures
            self.queue().has_room() <==> self.messages().len() + (if self.queue().nothing_lent() {
                0int
            } else {
                1int
            }) < self.queue().capacity(),
    {
        self.lemma_room();
    }

    /// A message that is sent comes behind all waiting messages. If it is not sent,
    /// the same messages wait.
    pub proof fn law_sent_message(before: Queue<T>, message: T, sent: bool, after: Queue<T>)
        requires
            Self::queue_after_push(before, message, sent, after),
        ensures
            sent ==> after.messages() == before.messages() + seq![message],
            !sent ==> after.messages() == before.messages(),
            after.capacity() == before.capacity(),
            after.closed() == before.closed(),
            after.popped() == before.popped(),
            after.nothing_lent() <==> before.nothing_lent(),
            forall|n: nat| #[trigger] after.lent(n) <==> before.lent(n),
            forall|borrow: MessageBorrow<T>| #[trigger]
                after.lends(borrow) <==> before.lends(borrow),
    {
        assert(before.messages().push(message) =~= before.messages() + seq![message]);
        if before.nothing_lent() {
            assert forall|n: nat| !#[trigger] after.lent(n) by {
                assert(!before.lent(n));
            }
        }
        if after.nothing_lent() {
            assert forall|n: nat| !#[trigger] before.lent(n) by {
                assert(!after.lent(n));
            }
        }
    }

    /// The senders that have waited for longest are notified, as many as requested or
    /// all of them if there are fewer. Each is woken with its own waker. The others
    /// still wait, in the same order.
    pub proof fn law_notified_senders(
        before: WaitSet,
        count: int,
        wakers: Seq<u64>,
        after: WaitSet,
        i: int,
    )
        requires
            before.wf(),
            0 <= count,
            Self::senders_notified(before, count, wakers, after),
        ensures
            wakers.len() == if count <= before.waiting().len() {
                count
            } else {
                before.waiting().len() as int
            },
            before.waiting() == before.waiting().subrange(0, wakers.len() as int)
                + after.waiting(),
            0 <= i < wakers.len() ==> before.waker(before.waiting()[i]) == Some(wakers[i]),
            0 <= i < after.waiting().len() ==> after.waker(after.waiting()[i]) == before.waker(
                after.waiting()[i],
            ),
    {
        let taken = if count <= before.waiting().len() {
            count
        } else {
            before.waiting().len() as int
        };
        assert(before.waiting() =~= before.waiting().subrange(0, taken) + before.waiting().skip(
            taken,
        ));
        if 0 <= i < taken {
            event::law_front_wakers(before, taken, i);
        }
        if 0 <= i < after.waiting().len() {
            before.law_enlisted();
            assert(before.waiting()[i + taken] == after.waiting()[i]);
            assert(before.waiting().contains(after.waiting()[i]));
            assert(before.allocated(after.waiting()[i]));
        }
    }

    /// Closing a channel does not lose any message that was sent before.
    pub proof fn law_closing_keeps_messages(before: Self, after: Self)
        requires
            Self::only_closed(before, after),
        ensures
            after.messages() == before.messages(),
            after.senders() == before.senders(),
            after.queue().capacity() == before.queue().capacity(),
            after.queue().popped() == before.queue().popped(),
            forall|n: nat| #[trigger] after.queue().lent(n) <==> before.queue().lent(n),
            forall|borrow: MessageBorrow<T>| #[trigger]
                after.queue().lends(borrow) <==> before.queue().lends(borrow),
    {
    }

    /// No wake-up is lost: a receiver never waits while there is a message to
    /// be received.
    pub proof fn law_receiver_never_waits_in_vain(self)
        requires
            self.wf(),
            self.receiver_waker() is Some,
        ensures
            self.messages().len() == 0,
    {
    }
}

} // verus!
