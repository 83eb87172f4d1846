//! Output and requestor ports.

use vstd::prelude::*;
use vstd::string::StringExecFns;

use super::broadcaster::{
    law_all_senders_are_asked, line_removed, sent_by, Broadcast, BroadcasterInner, EventBroadcaster, QueryBroadcaster,
};
use super::{LineError, LineId};
use crate::util::text::{decimal, decimal_text};

verus! {

/// An output port.
///
/// `Output` ports can be connected to input ports and broadcast events to all
/// connected input ports.
pub struct Output<S> {
    broadcaster: EventBroadcaster<S>,
}

impl<S> View for Output<S> {
    type V = Seq<(LineId, S)>;

    /// The connections of the port.
    closed spec fn view(&self) -> Seq<(LineId, S)> {
        self.broadcaster@
    }
}

impl<S> Output<S> {
    /// The senders of the port.
    pub closed spec fn lines(self) -> BroadcasterInner<S> {
        self.broadcaster.lines()
    }

    /// The invariant of the connections.
    pub closed spec fn wf(self) -> bool {
        self.broadcaster.wf()
    }

    /// Creates a new, disconnected `Output` port.
    pub fn new() -> (port: Self)
        ensures
            port.wf(),
            port.lines().next_number() == 0,
            port@ == Seq::<(LineId, S)>::empty(),
    {
        Output { broadcaster: EventBroadcaster::new() }
    }

    /// Checks if one more connection can be added.
    pub fn can_connect(&self) -> (r: bool)
        ensures
            r == self.lines().has_room(),
    {
        self.broadcaster.can_add()
    }

    /// Adds a connection to an input port of a model, which is reached through the
    /// specified sender.
    pub fn connect(&mut self, sender: S) -> (id: LineId)
        requires
            old(self).wf(),
            old(self).lines().has_room(),
        ensures
            final(self).wf(),
            !old(self).lines().has_line(id),
            id.number() == old(self).lines().next_number(),
            final(self).lines().next_number() == old(self).lines().next_number() + 1,
            final(self)@ == old(self)@.push((id, sender)),
    {
        self.broadcaster.add(sender)
    }

    /// Adds a connection to an event sink such as an
    /// [`EventSlot`](super::event_slot::EventSlot) or an
    /// [`EventBuffer`](super::event_buffer::EventBuffer), which is reached
    /// through the specified sender.
    pub fn connect_sink(&mut self, sender: S) -> (id: LineId)
        requires
            old(self).wf(),
            old(self).lines().has_room(),
        ensures
            final(self).wf(),
            !old(self).lines().has_line(id),
            id.number() == old(self).lines().next_number(),
            final(self).lines().next_number() == old(self).lines().next_number() + 1,
            final(self)@ == old(self)@.push((id, sender)),
    {
        self.broadcaster.add(sender)
    }

    /// Removes the connection specified by the `LineId` parameter.
    ///
    /// It is a logic error to specify a line identifier from another port and
    /// may result in the disconnection of an arbitrary endpoint.
    pub fn disconnect(&mut self, line_id: LineId) -> (result: Result<(), LineError>)
        requires
            old(self).wf(),
        ensures
            final(self).wf(),
            final(self).lines().next_number() == old(self).lines().next_number(),
            result is Ok <==> old(self).lines().has_line(line_id),
            result is Err ==> final(self)@ == old(self)@,
            result is Ok ==> line_removed(old(self)@, line_id, final(self)@),
            !final(self).lines().has_line(line_id),
    {
        if self.broadcaster.remove(line_id) {
            Ok(())
        } else {
            Err(LineError {  })
        }
    }

    /// Removes all connections.
    pub fn disconnect_all(&mut self)
        requires
            old(self).wf(),
        ensures
            final(self).wf(),
            final(self).lines().next_number() == old(self).lines().next_number(),
            final(self)@ == Seq::<(LineId, S)>::empty(),
    {
        self.broadcaster.clear();
    }

    /// Broadcasts an event to all connected input ports, asking each sender to
    /// send it with the provided function.
    pub fn send<T, F, C>(&self, arg: &T, send: C) -> (broadcast: Broadcast<F>) where
        C: Fn(&S, &T) -> Option<F>,

        requires
            forall|i: int| 0 <= i < self@.len() ==> send.requires((&(#[trigger] self@[i]).1, arg)),
        ensures
            broadcast.wf(),
            sent_by(self.lines().senders(), *arg, send, broadcast.futures()),
    {
        assert(self@ == self.broadcaster@);
        self.broadcaster.broadcast(arg, send)
    }

    /// An event is sent to all connected ports: each of them is asked once, in
    /// order, and all futures that they offer are awaited, however many there are.
    ///
    /// What each connection has offered is returned.
    pub proof fn law_event_reaches_all_connections<T, F, C>(
        self,
        arg: T,
        send: C,
        broadcast: Broadcast<F>,
    ) -> (offers: Seq<Option<F>>) where C: Fn(&S, &T) -> Option<F>
        requires
            self.wf(),
            broadcast.wf(),
            sent_by(self.lines().senders(), arg, send, broadcast.futures()),
        ensures
            offers.len() == self@.len(),
            forall|i: int|
                0 <= i < self@.len() ==> send.ensures((&self@[i].1, &arg), #[trigger] offers[i]),
            match broadcast {
                Broadcast::Empty => forall|i: int|
                    0 <= i < offers.len() ==> (#[trigger] offers[i]) is None,
                Broadcast::Single(fut) => seq![fut] == offers.filter_map(|offer: Option<F>| offer),
                Broadcast::Multiple(futures) => futures@ == offers.filter_map(
                    |offer: Option<F>| offer,
                ) && futures@.len() > 1,
            },
    {
        let offers = law_all_senders_are_asked(
            self.lines().senders(),
            arg,
            send,
            broadcast.futures(),
        );
        assert forall|i: int| 0 <= i < self@.len() implies send.ensures(
            (&self@[i].1, &arg),
            #[trigger] offers[i],
        ) by {
            assert(self.lines().senders()[i] == self@[i].1);
        }
        offers
    }

    /// Returns the number of connections.
    pub fn len(&self) -> (count: usize)
        ensures
            count == self@.len(),
    {
        self.broadcaster.len()
    }

    /// The debug representation of the port.
    pub fn to_text(&self) -> (text: String)
        ensures
            text@ == "Output ("@ + decimal(self@.len()) + " connected ports)"@,
    {
        let mut text = "Output (".to_owned();
        text.append(decimal_text(self.broadcaster.len()).as_str());
        text.append(" connected ports)");
        text
    }
}

impl<S> Default for Output<S> {
    fn default() -> (port: Self)
        ensures
            port.wf(),
            port.lines().next_number() == 0,
            port@ == Seq::<(LineId, S)>::empty(),
    {
        Output::new()
    }
}

/// A requestor port.
///
/// `Requestor` ports can be connected to replier ports and broadcast queries to
/// all connected replier ports.
pub struct Requestor<S> {
    broadcaster: QueryBroadcaster<S>,
}

impl<S> View for Requestor<S> {
    type V = Seq<(LineId, S)>;

    /// The connections of the port.
    closed spec fn view(&self) -> Seq<(LineId, S)> {
        self.broadcaster@
    }
}

impl<S> Requestor<S> {
    /// The senders of the port.
    pub closed spec fn lines(self) -> BroadcasterInner<S> {
        self.broadcaster.lines()
    }

    /// The invariant of the connections.
    pub closed spec fn wf(self) -> bool {
        self.broadcaster.wf()
    }

    /// Creates a new, disconnected `Requestor` port.
    pub fn new() -> (port: Self)
        ensures
            port.wf(),
            port.lines().next_number() == 0,
            port@ == Seq::<(LineId, S)>::empty(),
    {
        Requestor { broadcaster: QueryBroadcaster::new() }
    }

    /// Checks if one more connection can be added.
    pub fn can_connect(&self) -> (r: bool)
        ensures
            r == self.lines().has_room(),
    {
        self.broadcaster.can_add()
    }

    /// Adds a connection to a replier port of a model, which is reached through the
    /// specified sender.
    pub fn connect(&mut self, sender: S) -> (id: LineId)
        requires
            old(self).wf(),
            old(self).lines().has_room(),
        ensures
            final(self).wf(),
            !old(self).lines().has_line(id),
            id.number() == old(self).lines().next_number(),
            final(self).lines().next_number() == old(self).lines().next_number() + 1,
            final(self)@ == old(self)@.push((id, sender)),
    {
        self.broadcaster.add(sender)
    }

    /// Removes the connection specified by the `LineId` parameter.
    ///
    /// It is a logic error to specify a line identifier from another port and
    /// may result in the disconnection of an arbitrary endpoint.
    pub fn disconnect(&mut self, line_id: LineId) -> (result: Result<(), LineError>)
        requires
            old(self).wf(),
        ensures
            final(self).wf(),
            final(self).lines().next_number() == old(self).lines().next_number(),
            result is Ok <==> old(self).lines().has_line(line_id),
            result is Err ==> final(self)@ == old(self)@,
            result is Ok ==> line_removed(old(self)@, line_id, final(self)@),
            !final(self).lines().has_line(line_id),
    {
        if self.broadcaster.remove(line_id) {
            Ok(())
        } else {
            Err(LineError {  })
        }
    }

    /// Removes all connections.
    pub fn disconnect_all(&mut self)
        requires
            old(self).wf(),
        ensures
            final(self).wf(),
            final(self).lines().next_number() == old(self).lines().next_number(),
            final(self)@ == Seq::<(LineId, S)>::empty(),
    {
        self.broadcaster.clear();
    }

    /// Broadcasts a query to all connected replier ports, asking each sender to
    /// send it with the provided function.
    pub fn send<T, F, C>(&self, arg: &T, send: C) -> (broadcast: Broadcast<F>) where
        C: Fn(&S, &T) -> Option<F>,

        requires
            forall|i: int| 0 <= i < self@.len() ==> send.requires((&(#[trigger] self@[i]).1, arg)),
        ensures
            broadcast.wf(),
            sent_by(self.lines().senders(), *arg, send, broadcast.futures()),
    {
        assert(self@ == self.broadcaster@);
        self.broadcaster.broadcast(arg, send)
    }

    /// A query is sent to all connected ports: each of them is asked once, in
    /// order, and all futures that they offer are awaited, however many there are.
    ///
    /// What each connection has offered is returned.
    pub proof fn law_query_reaches_all_connections<T, F, C>(
        self,
        arg: T,
        send: C,
        broadcast: Broadcast<F>,
    ) -> (offers: Seq<Option<F>>) where C: Fn(&S, &T) -> Option<F>
        requires
            self.wf(),
            broadcast.wf(),
            sent_by(self.lines().senders(), arg, send, broadcast.futures()),
        ensures
            offers.len() == self@.len(),
            forall|i: int|
                0 <= i < self@.len() ==> send.ensures((&self@[i].1, &arg), #[trigger] offers[i]),
            match broadcast {
                Broadcast::Empty => forall|i: int|
                    0 <= i < offers.len() ==> (#[trigger] offers[i]) is None,
                Broadcast::Single(fut) => seq![fut] == offers.filter_map(|offer: Option<F>| offer),
                Broadcast::Multiple(futures) => futures@ == offers.filter_map(
                    |offer: Option<F>| offer,
                ) && futures@.len() > 1,
            },
    {
        let offers = law_all_senders_are_asked(
            self.lines().senders(),
            arg,
            send,
            broadcast.futures(),
        );
        assert forall|i: int| 0 <= i < self@.len() implies send.ensures(
            (&self@[i].1, &arg),
            #[trigger] offers[i],
        ) by {
            assert(self.lines().senders()[i] == self@[i].1);
        }
        offers
    }

    /// Returns the number of connections.
    pub fn len(&self) -> (count: usize)
        ensures
            count == self@.len(),
    {
        self.broadcaster.len()
    }

    /// The debug representation of the port.
    pub fn to_text(&self) -> (text: String)
        ensures
            text@ == "Requestor ("@ + decimal(self@.len()) + " connected ports)"@,
    {
        let mut text = "Requestor (".to_owned();
        text.append(decimal_text(self.broadcaster.len()).as_str());
        text.append(" connected ports)");
        text
    }
}

impl<S> Default for Requestor<S> {
    fn default() -> (port: Self)
        ensures
            port.wf(),
            port.lines().next_number() == 0,
            port@ == Seq::<(LineId, S)>::empty(),
    {
        Requestor::new()
    }
}

} // verus!
