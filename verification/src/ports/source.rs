//! Broadcasting from outside the simulation.

use vstd::prelude::*;

use super::broadcaster::{
    answers, law_all_senders_are_asked, lemma_one_more_answer, offered, plan, sent_by, Broadcast,
};

verus! {

/// An object that can efficiently broadcast messages to several addresses.
///
/// This is very similar to
/// [`BroadcasterInner`](super::broadcaster::BroadcasterInner), but connections
/// are permanent.
pub struct SourceBroadcaster<S> {
    /// The list of senders.
    senders: Vec<S>,
}

impl<S> View for SourceBroadcaster<S> {
    type V = Seq<S>;

    /// The senders.
    closed spec fn view(&self) -> Seq<S> {
        self.senders@
    }
}

impl<S> SourceBroadcaster<S> {
    /// Whether one more sender can be added.
    pub open spec fn has_room(self) -> bool {
        self@.len() < u32::MAX - 2
    }

    /// Creates an object without senders.
    pub fn new() -> (broadcaster: Self)
        ensures
            broadcaster@ == Seq::<S>::empty(),
    {
        SourceBroadcaster { senders: Vec::new() }
    }

    /// Checks if one more sender can be added.
    pub fn can_add(&self) -> (r: bool)
        ensures
            r == self.has_room(),
    {
        (self.senders.len() as u64) < u32::MAX as u64 - 2
    }

    /// Adds a new sender.
    ///
    /// The total count of senders may not reach `u32::MAX - 1`.
    pub fn add(&mut self, sender: S)
        requires
            old(self).has_room(),
        ensures
            final(self)@ == old(self)@.push(sender),
    {
        self.senders.push(sender);
    }

    /// An event or query is sent to all addresses: each of them is asked once, in
    /// order, and all futures that they offer are awaited, however many there are.
    ///
    /// What each connection has offered is returned.
    pub proof fn law_message_reaches_all_addresses<T, F, C>(
        self,
        arg: T,
        send: C,
        broadcast: Broadcast<F>,
    ) -> (offers: Seq<Option<F>>) where C: Fn(&S, &T) -> Option<F>
        requires
            broadcast.wf(),
            sent_by(self@, arg, send, broadcast.futures()),
        ensures
            offers.len() == self@.len(),
            forall|i: int|
                0 <= i < self@.len() ==> send.ensures((&self@[i], &arg), #[trigger] offers[i]),
            match broadcast {
                Broadcast::Empty => forall|i: int|
                    0 <= i < offers.len() ==> (#[trigger] offers[i]) is None,
                Broadcast::Single(fut) => seq![fut] == offers.filter_map(|offer: Option<F>| offer),
                Broadcast::Multiple(futures) => futures@ == offers.filter_map(
                    |offer: Option<F>| offer,
                ) && futures@.len() > 1,
            },
    {
        let offers = law_all_senders_are_asked(
            self@,
            arg,
            send,
            broadcast.futures(),
        );
        assert forall|i: int| 0 <= i < self@.len() implies send.ensures(
            (&self@[i], &arg),
            #[trigger] offers[i],
        ) by {
            assert(self@[i] == self@[i]);
        }
        offers
    }

    /// Returns the number of connected senders.
    pub fn len(&self) -> (count: usize)
        ensures
            count == self@.len(),
    {
        self.senders.len()
    }

    /// Broadcasts an event or query to all addresses, asking each sender to send
    /// it with the provided function.
    pub fn broadcast<T, F, C>(&self, arg: &T, send: C) -> (broadcast: Broadcast<F>) where
        C: Fn(&S, &T) -> Option<F>,

        requires
            forall|i: int| 0 <= i < self@.len() ==> send.requires((&#[trigger] self@[i], arg)),
        ensures
            broadcast.wf(),
            sent_by(self@, *arg, send, broadcast.futures()),
    {
        let mut futures: Vec<F> = Vec::new();
        let ghost mut offers: Seq<Option<F>> = Seq::empty();
        let mut i: usize = 0;
        proof {
            assert(self@.take(0) =~= Seq::<S>::empty());
        }
        while i < self.senders.len()
            invariant
                i <= self.senders@.len(),
                forall|i: int| 0 <= i < self@.len() ==> send.requires((&#[trigger] self@[i], arg)),
                answers(self@.take(i as int), *arg, send, offers),
                futures@ == offered(offers),
            decreases self.senders@.len() - i,
        {
            assert(send.requires((&self@[i as int], arg)));
            let offer = send(&self.senders[i], arg);
            proof {
                let asked = self@.take(i as int);
                lemma_one_more_answer(asked, *arg, send, offers, self@[i as int], offer);
                assert(asked.push(self@[i as int]) =~= self@.take(i + 1));
                offers = offers.push(offer);
            }
            if let Some(fut) = offer {
                futures.push(fut);
            }
            i = i + 1;
        }
        proof {
            assert(self@.take(i as int) =~= self@);
        }
        plan(futures)
    }
}

impl<S> Default for SourceBroadcaster<S> {
    fn default() -> (broadcaster: Self)
        ensures
            broadcaster@ == Seq::<S>::empty(),
    {
        SourceBroadcaster::new()
    }
}

} // verus!
