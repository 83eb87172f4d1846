//! Broadcasting of messages to several addresses.

use vstd::prelude::*;

use super::LineId;
use crate::channel::SendError;

verus! {

/// Error returned when a message could not be delivered.
#[derive(Clone, Copy, Debug, PartialEq, Eq, Structural)]
pub struct BroadcastError {}

/// The futures that were offered.
pub open spec fn offered<F>(offers: Seq<Option<F>>) -> Seq<F>
    decreases offers.len(),
{
    if offers.len() == 0 {
        Seq::empty()
    } else {
        match offers.last() {
            Some(fut) => offered(offers.drop_last()).push(fut),
            None => offered(offers.drop_last()),
        }
    }
}

/// The futures to be awaited in order to broadcast a message.
pub enum Broadcast<F> {
    /// There are none.
    Empty,
    /// There is a single one.
    Single(F),
    /// There are several of them, to be awaited in parallel.
    Multiple(Vec<F>),
}

impl<F> Broadcast<F> {
    /// The futures, in order.
    pub open spec fn futures(self) -> Seq<F> {
        match self {
            Broadcast::Empty => Seq::empty(),
            Broadcast::Single(fut) => seq![fut],
            Broadcast::Multiple(futures) => futures@,
        }
    }

    /// The way to broadcast a message depends on the number of futures.
    pub open spec fn wf(self) -> bool {
        self matches Broadcast::Multiple(futures) ==> futures@.len() > 1
    }
}

/// Whether the offers are what the senders have returned when each of them was
/// asked to send the message.
pub open spec fn answers<S, T, F, C>(
    senders: Seq<S>,
    arg: T,
    send: C,
    offers: Seq<Option<F>>,
) -> bool where C: Fn(&S, &T) -> Option<F> {
    &&& offers.len() == senders.len()
    &&& forall|i: int|
        0 <= i < senders.len() ==> send.ensures((&senders[i], &arg), #[trigger] offers[i])
}

/// Whether the futures are those that the senders have offered, in order, when
/// each of them was asked to send the message.
pub open spec fn sent_by<S, T, F, C>(
    senders: Seq<S>,
    arg: T,
    send: C,
    futures: Seq<F>,
) -> bool where C: Fn(&S, &T) -> Option<F> {
    exists|offers: Seq<Option<F>>| #[trigger]
        answers(senders, arg, send, offers) && futures == offered(offers)
}

/// One more sender was asked.
pub(crate) proof fn lemma_one_more_answer<S, T, F, C>(
    senders: Seq<S>,
    arg: T,
    send: C,
    offers: Seq<Option<F>>,
    sender: S,
    offer: Option<F>,
) where C: Fn(&S, &T) -> Option<F>
    requires
        answers(senders, arg, send, offers),
        send.ensures((&sender, &arg), offer),
    ensures
        answers(senders.push(sender), arg, send, offers.push(offer)),
        offered(offers.push(offer)) == match offer {
            Some(fut) => offered(offers).push(fut),
            None => offered(offers),
        },
{
    assert(offers.push(offer).drop_last() =~= offers);
    let more = senders.push(sender);
    assert forall|i: int| 0 <= i < more.len() implies send.ensures(
        (&more[i], &arg),
        #[trigger] offers.push(offer)[i],
    ) by {
        if i < senders.len() {
            assert(send.ensures((&senders[i], &arg), offers[i]));
        }
    }
}

/// A message is sent to all senders: each of them is asked once, in order, and all
/// futures that are offered are awaited, whatever the number of senders. If no
/// sender declines the message, there is one future for each sender.
///
/// What each sender has returned is returned.
pub proof fn law_all_senders_are_asked<S, T, F, C>(
    senders: Seq<S>,
    arg: T,
    send: C,
    futures: Seq<F>,
) -> (offers: Seq<Option<F>>) where C: Fn(&S, &T) -> Option<F>
    requires
        sent_by(senders, arg, send, futures),
    ensures
        offers.len() == senders.len(),
        forall|i: int|
            0 <= i < senders.len() ==> send.ensures((&senders[i], &arg), #[trigger] offers[i]),
        futures == offers.filter_map(|offer: Option<F>| offer),
        futures.len() <= senders.len(),
        (forall|i: int| 0 <= i < offers.len() ==> (#[trigger] offers[i]) is Some) ==> {
            &&& futures.len() == senders.len()
            &&& forall|i: int|
                0 <= i < futures.len() ==> send.ensures(
                    (&senders[i], &arg),
                    Some(#[trigger] futures[i]),
                )
        },
        forall|i: int|
            0 <= i < offers.len() && (#[trigger] offers[i]) is Some ==> futures.contains(
                offers[i]->Some_0,
            ),
{
    let offers = choose|offers: Seq<Option<F>>| #[trigger]
        answers(senders, arg, send, offers) && futures == offered(offers);
    lemma_offered(offers);
    if forall|i: int| 0 <= i < offers.len() ==> (#[trigger] offers[i]) is Some {
        assert forall|i: int| 0 <= i < futures.len() implies send.ensures(
            (&senders[i], &arg),
            Some(#[trigger] futures[i]),
        ) by {
            assert(offers[i] == Some(futures[i]));
        }
    }
    offers
}

proof fn lemma_offered<F>(offers: Seq<Option<F>>)
    ensures
        offered(offers) == offers.filter_map(|offer: Option<F>| offer),
        offered(offers).len() <= offers.len(),
        (forall|i: int| 0 <= i < offers.len() ==> (#[trigger] offers[i]) is Some) ==> offered(
            offers,
        ).len() == offers.len() && forall|i: int|
            0 <= i < offers.len() ==> #[trigger] offers[i] == Some(offered(offers)[i]),
        forall|i: int|
            0 <= i < offers.len() && (#[trigger] offers[i]) is Some ==> offered(offers).contains(
                offers[i]->Some_0,
            ),
    decreases offers.len(),
{
    let all = offered(offers);
    if offers.len() > 0 {
        let others = offers.drop_last();
        lemma_offered(others);
        let last = offers[offers.len() - 1];
        assert(all =~= offers.filter_map(|offer: Option<F>| offer));
        if forall|i: int| 0 <= i < offers.len() ==> (#[trigger] offers[i]) is Some {
            assert forall|i: int| 0 <= i < others.len() implies (#[trigger] others[i]) is Some by {
                assert(offers[i] is Some);
            }
            assert(last is Some);
            assert forall|i: int| 0 <= i < offers.len() implies #[trigger] offers[i] == Some(
                all[i],
            ) by {
                if i < others.len() {
                    assert(others[i] == offers[i]);
                }
            }
        }
        assert forall|i: int| 0 <= i < offers.len() && (#[trigger] offers[i]) is Some implies
            all.contains(offers[i]->Some_0) by {
            if i < others.len() {
                assert(others[i] == offers[i]);
                let j = choose|j: int|
                    0 <= j < offered(others).len() && offered(others)[j] == offers[i]->Some_0;
                assert(all[j] == offers[i]->Some_0);
            } else {
                assert(all[all.len() - 1] == offers[i]->Some_0);
            }
        }
    }
}

/// Plans a broadcast.
pub(crate) fn plan<F>(mut futures: Vec<F>) -> (broadcast: Broadcast<F>)
    ensures
        broadcast.wf(),
        broadcast.futures() == futures@,
{
    if futures.len() > 1 {
        return Broadcast::Multiple(futures);
    }
    let ghost all = futures@;
    match futures.pop() {
        Some(fut) => {
            assert(all =~= seq![fut]);
            Broadcast::Single(fut)
        },
        None => Broadcast::Empty,
    }
}

/// The lines that remain once the one at the given position is removed.
pub open spec fn without_line<S>(lines: Seq<(LineId, S)>, pos: int) -> Seq<(LineId, S)> {
    if pos == lines.len() - 1 {
        lines.drop_last()
    } else {
        lines.update(pos, lines.last()).drop_last()
    }
}

/// Whether the line with the given identifier was removed.
pub open spec fn line_removed<S>(
    before: Seq<(LineId, S)>,
    id: LineId,
    after: Seq<(LineId, S)>,
) -> bool {
    exists|pos: int|
        0 <= pos < before.len() && (#[trigger] before[pos]).0 == id && after == without_line(
            before,
            pos,
        )
}

/// An object that can efficiently broadcast messages to several addresses.
///
/// This object maintains a list of senders associated to each target address.
/// When a message is broadcast, the sender futures are awaited in parallel and
/// their outputs are returned all at once.
pub struct BroadcasterInner<S> {
    /// Line identifier for the next port to be connected.
    next_line_id: u64,
    /// The list of senders with their associated line identifier.
    senders: Vec<(LineId, S)>,
}

impl<S> View for BroadcasterInner<S> {
    type V = Seq<(LineId, S)>;

    /// The senders with their associated line identifiers.
    closed spec fn view(&self) -> Seq<(LineId, S)> {
        self.senders@
    }
}

impl<S> BroadcasterInner<S> {
    /// The number of the next line.
    pub closed spec fn next_number(self) -> u64 {
        self.next_line_id
    }

    /// Lines are distinct and were attributed before the next one.
    pub open spec fn wf(self) -> bool {
        &&& forall|i: int| 0 <= i < self@.len() ==> (#[trigger] self@[i]).0.number()
            < self.next_number()
        &&& forall|i: int, j: int|
            0 <= i < j < self@.len() ==> (#[trigger] self@[i]).0 != (#[trigger] self@[j]).0
    }

    /// The senders, in order.
    pub open spec fn senders(self) -> Seq<S> {
        Seq::new(self@.len(), |i: int| self@[i].1)
    }

    /// Whether there is a line with the given identifier.
    pub open spec fn has_line(self, id: LineId) -> bool {
        exists|i: int| 0 <= i < self@.len() && (#[trigger] self@[i]).0 == id
    }

    /// Whether one more sender can be added.
    pub open spec fn has_room(self) -> bool {
        self.next_number() != u64::MAX && self@.len() < u32::MAX - 2
    }

    /// Creates an object without senders.
    pub fn new() -> (broadcaster: Self)
        ensures
            broadcaster.wf(),
            broadcaster.next_number() == 0,
            broadcaster@ == Seq::<(LineId, S)>::empty(),
    {
        BroadcasterInner { next_line_id: 0, senders: Vec::new() }
    }

    /// Checks if one more sender can be added.
    pub fn can_add(&self) -> (r: bool)
        ensures
            r == self.has_room(),
    {
        self.next_line_id != u64::MAX && (self.senders.len() as u64) < u32::MAX as u64 - 2
    }

    /// Adds a new sender and returns its line identifier.
    ///
    /// The total count of senders may not reach `u32::MAX - 1`.
    pub fn add(&mut self, sender: S) -> (id: LineId)
        requires
            old(self).wf(),
            old(self).has_room(),
        ensures
            final(self).wf(),
            !old(self).has_line(id),
            id.number() == old(self).next_number(),
            final(self).next_number() == old(self).next_number() + 1,
            final(self)@ == old(self)@.push((id, sender)),
    {
        let line_id = LineId::new(self.next_line_id);
        self.next_line_id = self.next_line_id + 1;
        self.senders.push((line_id, sender));
        line_id
    }

    /// Removes the sender with the specified identifier, if any.
    ///
    /// Returns `true` if there was indeed a sender associated to the specified
    /// identifier.
    pub fn remove(&mut self, id: LineId) -> (found: bool)
        requires
            old(self).wf(),
        ensures
            final(self).wf(),
            final(self).next_number() == old(self).next_number(),
            found == old(self).has_line(id),
            !found ==> final(self)@ == old(self)@,
            found ==> line_removed(old(self)@, id, final(self)@),
            !final(self).has_line(id),
    {
        let mut pos: usize = 0;
        while pos < self.senders.len()
            invariant
                *self == *old(self),
                self.wf(),
                pos <= self.senders@.len(),
                forall|i: int| 0 <= i < pos ==> (#[trigger] self@[i]).0 != id,
            decreases self.senders@.len() - pos,
        {
            if self.senders[pos].0 == id {
                self.senders.swap_remove(pos);
                proof {
                    let before = old(self)@;
                    assert(before[pos as int].0 == id);
                    assert(self@ =~= without_line(before, pos as int));
                    assert forall|i: int| 0 <= i < self@.len() implies (#[trigger] self@[i]).0
                        != id by {
                        assert(before[i].0 != id || i == pos);
                    }
                }
                return true;
            }
            pos = pos + 1;
        }
        false
    }

    /// Removes all senders.
    pub fn clear(&mut self)
        requires
            old(self).wf(),
        ensures
            final(self).wf(),
            final(self).next_number() == old(self).next_number(),
            final(self)@ == Seq::<(LineId, S)>::empty(),
    {
        self.senders.clear();
    }

    /// Returns the number of connected senders.
    pub fn len(&self) -> (count: usize)
        ensures
            count == self@.len(),
    {
        self.senders.len()
    }

    /// Asks all senders to send a message with the provided function and collects
    /// their futures.
    ///
    /// A sender may also have nothing to do, for instance because it filters out
    /// the message.
    pub fn futures<T, F, C>(&self, arg: &T, send: C) -> (futures: Vec<F>) where
        C: Fn(&S, &T) -> Option<F>,

        requires
            forall|i: int| 0 <= i < self@.len() ==> send.requires((&(#[trigger] self@[i]).1, arg)),
        ensures
            sent_by(self.senders(), *arg, send, futures@),
    {
        let mut futures: Vec<F> = Vec::new();
        let ghost mut offers: Seq<Option<F>> = Seq::empty();
        let mut i: usize = 0;
        proof {
            assert(self.senders().take(0) =~= Seq::<S>::empty());
        }
        while i < self.senders.len()
            invariant
                i <= self.senders@.len(),
                forall|i: int|
                    0 <= i < self@.len() ==> send.requires((&(#[trigger] self@[i]).1, arg)),
                answers(self.senders().take(i as int), *arg, send, offers),
                futures@ == offered(offers),
            decreases self.senders@.len() - i,
        {
            assert(send.requires((&self@[i as int].1, arg)));
            let offer = send(&self.senders[i].1, arg);
            proof {
                let asked = self.senders().take(i as int);
                lemma_one_more_answer(asked, *arg, send, offers, self@[i as int].1, offer);
                assert(asked.push(self@[i as int].1) =~= self.senders().take(i + 1));
                offers = offers.push(offer);
            }
            if let Some(fut) = offer {
                futures.push(fut);
            }
            i = i + 1;
        }
        proof {
            assert(self.senders().take(i as int) =~= self.senders());
        }
        futures
    }

    /// Plans the broadcast of an event or query to all addresses, asking all
    /// senders to send it with the provided function.
    pub fn broadcast<T, F, C>(&self, arg: &T, send: C) -> (broadcast: Broadcast<F>) where
        C: Fn(&S, &T) -> Option<F>,

        requires
            forall|i: int| 0 <= i < self@.len() ==> send.requires((&(#[trigger] self@[i]).1, arg)),
        ensures
            broadcast.wf(),
            sent_by(self.senders(), *arg, send, broadcast.futures()),
    {
        plan(self.futures(arg, send))
    }
}

/// Whether lines have the same identifiers and lead to clones of the same senders.
pub open spec fn same_lines<S: Clone>(a: Seq<(LineId, S)>, b: Seq<(LineId, S)>) -> bool {
    &&& a.len() == b.len()
    &&& forall|i: int|
        0 <= i < a.len() ==> (#[trigger] b[i]).0 == a[i].0 && cloned(a[i].1, b[i].1)
}

impl<S> Default for BroadcasterInner<S> {
    fn default() -> (broadcaster: Self)
        ensures
            broadcaster.wf(),
            broadcaster.next_number() == 0,
            broadcaster@ == Seq::<(LineId, S)>::empty(),
    {
        BroadcasterInner::new()
    }
}

impl<S: Clone> Clone for BroadcasterInner<S> {
    /// Clones all senders, which keep their line identifiers.
    fn clone(&self) -> (broadcaster: Self)
        ensures
            self.wf() ==> broadcaster.wf(),
            broadcaster.next_number() == self.next_number(),
            same_lines(self@, broadcaster@),
    {
        let mut senders: Vec<(LineId, S)> = Vec::new();
        let mut i: usize = 0;
        while i < self.senders.len()
            invariant
                i <= self.senders@.len(),
                same_lines(self.senders@.take(i as int), senders@),
            decreases self.senders@.len() - i,
        {
            senders.push((self.senders[i].0, self.senders[i].1.clone()));
            i = i + 1;
        }
        proof {
            assert(self.senders@.take(i as int) =~= self.senders@);
        }
        let broadcaster = BroadcasterInner { next_line_id: self.next_line_id, senders };
        proof {
            if self.wf() {
                assert forall|i: int| 0 <= i < broadcaster@.len() implies (
                #[trigger] broadcaster@[i]).0.number() < broadcaster.next_number() by {
                    assert(self@[i].0.number() < self.next_number());
                }
                assert forall|i: int, j: int| 0 <= i < j < broadcaster@.len() implies (
                #[trigger] broadcaster@[i]).0 != (#[trigger] broadcaster@[j]).0 by {
                    assert(self@[i].0 != self@[j].0);
                }
            }
        }
        broadcaster
    }
}

impl<S> BroadcasterInner<S> {
    /// Senders are those of all lines, in order, and a line is known if and only if
    /// some sender has it.
    pub proof fn law_lines(self, id: LineId)
        ensures
            self.senders().len() == self@.len(),
            forall|i: int|
                0 <= i < self@.len() ==> #[trigger] self.senders()[i] == self@[i].1,
            self.has_line(id) <==> self@.map_values(|line: (LineId, S)| line.0).contains(id),
            self.has_room() <==> self.next_number() < u64::MAX && self@.len() + 3 <= u32::MAX,
            self.wf() ==> self@.map_values(|line: (LineId, S)| line.0).no_duplicates(),
    {
        let ids = self@.map_values(|line: (LineId, S)| line.0);
        if self.has_line(id) {
            let i = choose|i: int| 0 <= i < self@.len() && (#[trigger] self@[i]).0 == id;
            assert(ids[i] == id);
        }
        if ids.contains(id) {
            let i = choose|i: int| 0 <= i < ids.len() && ids[i] == id;
            assert(self@[i].0 == id);
        }
        if self.wf() {
            assert forall|i: int, j: int|
                0 <= i < ids.len() && 0 <= j < ids.len() && i != j implies ids[i] != ids[j] by {
                if i < j {
                    assert(self@[i].0 != self@[j].0);
                } else {
                    assert(self@[j].0 != self@[i].0);
                }
            }
        }
    }
}

/// Removing a line removes it and nothing else.
pub proof fn law_one_line_is_removed<S>(
    before: Seq<(LineId, S)>,
    id: LineId,
    after: Seq<(LineId, S)>,
    line: (LineId, S),
)
    requires
        before.map_values(|line: (LineId, S)| line.0).no_duplicates(),
        line_removed(before, id, after),
    ensures
        after.len() + 1 == before.len(),
        after.contains(line) <==> before.contains(line) && line.0 != id,
{
    let ids = before.map_values(|line: (LineId, S)| line.0);
    let pos = choose|pos: int|
        0 <= pos < before.len() && (#[trigger] before[pos]).0 == id && after == without_line(
            before,
            pos,
        );
    assert(ids[pos] == id);
    if before.contains(line) && line.0 != id {
        let i = choose|i: int| 0 <= i < before.len() && before[i] == line;
        law_other_lines_remain(before, pos, i);
    }
    if after.contains(line) {
        let i = choose|i: int| 0 <= i < after.len() && after[i] == line;
        let j = if i == pos {
            before.len() - 1
        } else {
            i
        };
        assert(before[j] == line);
        assert(ids[j] == line.0);
        assert(j != pos);
    }
}

/// Other lines are not affected by the removal of a line.
pub proof fn law_other_lines_remain<S>(lines: Seq<(LineId, S)>, pos: int, other: int)
    requires
        0 <= pos < lines.len(),
        0 <= other < lines.len(),
        other != pos,
    ensures
        without_line(lines, pos).contains(lines[other]),
        without_line(lines, pos).len() == lines.len() - 1,
{
    let rest = without_line(lines, pos);
    if other == lines.len() - 1 {
        assert(rest[pos] == lines[other]);
    } else {
        assert(rest[other] == lines[other]);
    }
}

/// An object that can efficiently broadcast events to several input ports.
///
/// See [`BroadcasterInner`] for details.
pub struct EventBroadcaster<S> {
    /// The broadcaster core object.
    inner: BroadcasterInner<S>,
}

impl<S> View for EventBroadcaster<S> {
    type V = Seq<(LineId, S)>;

    /// The senders with their associated line identifiers.
    closed spec fn view(&self) -> Seq<(LineId, S)> {
        self.inner@
    }
}

impl<S> EventBroadcaster<S> {
    /// The broadcaster core object.
    pub closed spec fn lines(self) -> BroadcasterInner<S> {
        self.inner
    }

    /// Lines are distinct and were attributed before the next one.
    pub open spec fn wf(self) -> bool {
        self.lines().wf() && self@ == self.lines()@
    }

    /// Creates an object without senders.
    pub fn new() -> (broadcaster: Self)
        ensures
            broadcaster.wf(),
            broadcaster.lines().next_number() == 0,
            broadcaster@ == Seq::<(LineId, S)>::empty(),
    {
        EventBroadcaster { inner: BroadcasterInner::new() }
    }

    /// Checks if one more sender can be added.
    pub fn can_add(&self) -> (r: bool)
        ensures
            r == self.lines().has_room(),
    {
        self.inner.can_add()
    }

    /// Adds a new sender and returns its line identifier.
    ///
    /// The total count of senders may not reach `u32::MAX - 1`.
    pub fn add(&mut self, sender: S) -> (id: LineId)
        requires
            old(self).wf(),
            old(self).lines().has_room(),
        ensures
            final(self).wf(),
            !old(self).lines().has_line(id),
            id.number() == old(self).lines().next_number(),
            final(self).lines().next_number() == old(self).lines().next_number() + 1,
            final(self)@ == old(self)@.push((id, sender)),
    {
        self.inner.add(sender)
    }

    /// Removes the sender with the specified identifier, if any.
    ///
    /// Returns `true` if there was indeed a sender associated to the specified
    /// identifier.
    pub fn remove(&mut self, id: LineId) -> (found: bool)
        requires
            old(self).wf(),
        ensures
            final(self).wf(),
            final(self).lines().next_number() == old(self).lines().next_number(),
            found == old(self).lines().has_line(id),
            !found ==> final(self)@ == old(self)@,
            found ==> line_removed(old(self)@, id, final(self)@),
            !final(self).lines().has_line(id),
    {
        self.inner.remove(id)
    }

    /// Removes all senders.
    pub fn clear(&mut self)
        requires
            old(self).wf(),
        ensures
            final(self).wf(),
            final(self).lines().next_number() == old(self).lines().next_number(),
            final(self)@ == Seq::<(LineId, S)>::empty(),
    {
        self.inner.clear();
    }

    /// Returns the number of connected senders.
    pub fn len(&self) -> (count: usize)
        ensures
            count == self@.len(),
    {
        self.inner.len()
    }

    /// Broadcasts an event to all addresses, given the future that each sender
    /// offers, if any.
    pub fn broadcast<T, F, C>(&self, arg: &T, send: C) -> (broadcast: Broadcast<F>) where
        C: Fn(&S, &T) -> Option<F>,

        requires
            forall|i: int| 0 <= i < self@.len() ==> send.requires((&(#[trigger] self@[i]).1, arg)),
        ensures
            broadcast.wf(),
            sent_by(self.lines().senders(), *arg, send, broadcast.futures()),
    {
        assert(self@ == self.inner@);
        self.inner.broadcast(arg, send)
    }

    /// The outcome of the broadcast of an event to a single address.
    pub fn single_result(result: Result<(), SendError>) -> (r: Result<(), BroadcastError>)
        ensures
            r is Ok <==> result is Ok,
    {
        match result {
            Ok(_) => Ok(()),
            Err(_) => Err(BroadcastError {  }),
        }
    }
}

impl<S> Default for EventBroadcaster<S> {
    fn default() -> (broadcaster: Self)
        ensures
            broadcaster.wf(),
            broadcaster.lines().next_number() == 0,
            broadcaster@ == Seq::<(LineId, S)>::empty(),
    {
        EventBroadcaster::new()
    }
}

impl<S: Clone> Clone for EventBroadcaster<S> {
    /// Clones all senders, which keep their line identifiers.
    fn clone(&self) -> (broadcaster: Self)
        ensures
            self.wf() ==> broadcaster.wf(),
            broadcaster.lines().next_number() == self.lines().next_number(),
            same_lines(self@, broadcaster@),
    {
        EventBroadcaster { inner: self.inner.clone() }
    }
}

/// An object that can efficiently broadcast queries to several replier ports.
///
/// See [`BroadcasterInner`] for details.
pub struct QueryBroadcaster<S> {
    /// The broadcaster core object.
    inner: BroadcasterInner<S>,
}

impl<S> View for QueryBroadcaster<S> {
    type V = Seq<(LineId, S)>;

    /// The senders with their associated line identifiers.
    closed spec fn view(&self) -> Seq<(LineId, S)> {
        self.inner@
    }
}

impl<S> QueryBroadcaster<S> {
    /// The broadcaster core object.
    pub closed spec fn lines(self) -> BroadcasterInner<S> {
        self.inner
    }

    /// Lines are distinct and were attributed before the next one.
    pub open spec fn wf(self) -> bool {
        self.lines().wf() && self@ == self.lines()@
    }

    /// Creates an object without senders.
    pub fn new() -> (broadcaster: Self)
        ensures
            broadcaster.wf(),
            broadcaster.lines().next_number() == 0,
            broadcaster@ == Seq::<(LineId, S)>::empty(),
    {
        QueryBroadcaster { inner: BroadcasterInner::new() }
    }

    /// Checks if one more sender can be added.
    pub fn can_add(&self) -> (r: bool)
        ensures
            r == self.lines().has_room(),
    {
        self.inner.can_add()
    }

    /// Adds a new sender and returns its line identifier.
    ///
    /// The total count of senders may not reach `u32::MAX - 1`.
    pub fn add(&mut self, sender: S) -> (id: LineId)
        requires
            old(self).wf(),
            old(self).lines().has_room(),
        ensures
            final(self).wf(),
            !old(self).lines().has_line(id),
            id.number() == old(self).lines().next_number(),
            final(self).lines().next_number() == old(self).lines().next_number() + 1,
            final(self)@ == old(self)@.push((id, sender)),
    {
        self.inner.add(sender)
    }

    /// Removes the sender with the specified identifier, if any.
    ///
    /// Returns `true` if there was indeed a sender associated to the specified
    /// identifier.
    pub fn remove(&mut self, id: LineId) -> (found: bool)
        requires
            old(self).wf(),
        ensures
            final(self).wf(),
            final(self).lines().next_number() == old(self).lines().next_number(),
            found == old(self).lines().has_line(id),
            !found ==> final(self)@ == old(self)@,
            found ==> line_removed(old(self)@, id, final(self)@),
            !final(self).lines().has_line(id),
    {
        self.inner.remove(id)
    }

    /// Removes all senders.
    pub fn clear(&mut self)
        requires
            old(self).wf(),
        ensures
            final(self).wf(),
            final(self).lines().next_number() == old(self).lines().next_number(),
            final(self)@ == Seq::<(LineId, S)>::empty(),
    {
        self.inner.clear();
    }

    /// Returns the number of connected senders.
    pub fn len(&self) -> (count: usize)
        ensures
            count == self@.len(),
    {
        self.inner.len()
    }

    /// Broadcasts a query to all addresses, given the future that each sender
    /// offers, if any.
    pub fn broadcast<T, F, C>(&self, arg: &T, send: C) -> (broadcast: Broadcast<F>) where
        C: Fn(&S, &T) -> Option<F>,

        requires
            forall|i: int| 0 <= i < self@.len() ==> send.requires((&(#[trigger] self@[i]).1, arg)),
        ensures
            broadcast.wf(),
            sent_by(self.lines().senders(), *arg, send, broadcast.futures()),
    {
        assert(self@ == self.inner@);
        self.inner.broadcast(arg, send)
    }

    /// The outcome of the broadcast of a query to a single address.
    pub fn single_result<R>(result: Result<R, SendError>) -> (r: Result<Vec<R>, BroadcastError>)
        ensures
            match result {
                Ok(reply) => r is Ok && r->Ok_0@ == seq![reply],
                Err(_) => r is Err,
            },
    {
        match result {
            Ok(reply) => {
                let mut replies: Vec<R> = Vec::new();
                replies.push(reply);
                assert(replies@ =~= seq![reply]);
                Ok(replies)
            },
            Err(_) => Err(BroadcastError {  }),
        }
    }
}

impl<S> Default for QueryBroadcaster<S> {
    fn default() -> (broadcaster: Self)
        ensures
            broadcaster.wf(),
            broadcaster.lines().next_number() == 0,
            broadcaster@ == Seq::<(LineId, S)>::empty(),
    {
        QueryBroadcaster::new()
    }
}

impl<S: Clone> Clone for QueryBroadcaster<S> {
    /// Clones all senders, which keep their line identifiers.
    fn clone(&self) -> (broadcaster: Self)
        ensures
            self.wf() ==> broadcaster.wf(),
            broadcaster.lines().next_number() == self.lines().next_number(),
            same_lines(self@, broadcaster@),
    {
        QueryBroadcaster { inner: self.inner.clone() }
    }
}

/// A clone has the same lines, in the same order, each of which leads to a clone of the
/// same sender.
pub proof fn law_cloned_lines<S: Clone>(a: Seq<(LineId, S)>, b: Seq<(LineId, S)>, i: int)
    requires
        same_lines(a, b),
    ensures
        a.len() == b.len(),
        0 <= i < a.len() ==> b[i].0 == a[i].0 && cloned(a[i].1, b[i].1),
{
    if 0 <= i < a.len() {
        assert(b[i].0 == a[i].0);
    }
}

/// A broadcast is planned according to the number of futures.
pub proof fn law_planned_broadcast<F>(broadcast: Broadcast<F>)
    requires
        broadcast.wf(),
    ensures
        match broadcast {
            Broadcast::Empty => broadcast.futures().len() == 0,
            Broadcast::Single(fut) => broadcast.futures() == seq![fut],
            Broadcast::Multiple(futures) => broadcast.futures() == futures@ && futures@.len() >= 2,
        },
{
}

} // verus!
