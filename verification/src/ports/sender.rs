//! Senders of events and queries.

use vstd::prelude::*;

use crate::channel::{RecvError, SendError};

verus! {

/// Maps messages before they are sent.
pub struct MapSender<C> {
    map: C,
}

impl<C> MapSender<C> {
    /// The function that maps messages.
    pub closed spec fn mapping(self) -> C {
        self.map
    }

    /// Creates a sender that maps messages with the provided function.
    pub fn new(map: C) -> (sender: Self)
        ensures
            sender.mapping() == map,
    {
        MapSender { map }
    }

    /// Returns the message to be sent.
    pub fn message<T, U>(&self, arg: &T) -> (message: U) where C: Fn(&T) -> U
        requires
            self.mapping().requires((arg,)),
        ensures
            self.mapping().ensures((arg,), message),
    {
        (self.map)(arg)
    }
}

/// Filters and maps messages before they are sent.
pub struct FilterMapSender<C> {
    filter_map: C,
}

impl<C> FilterMapSender<C> {
    /// The function that filters and maps messages.
    pub closed spec fn mapping(self) -> C {
        self.filter_map
    }

    /// Creates a sender that filters and maps messages with the provided
    /// function.
    pub fn new(filter_map: C) -> (sender: Self)
        ensures
            sender.mapping() == filter_map,
    {
        FilterMapSender { filter_map }
    }

    /// Returns the message to be sent, unless it was filtered out.
    pub fn message<T, U>(&self, arg: &T) -> (message: Option<U>) where C: Fn(&T) -> Option<U>
        requires
            self.mapping().requires((arg,)),
        ensures
            self.mapping().ensures((arg,), message),
    {
        (self.filter_map)(arg)
    }
}

/// What a sender of queries waits for.
#[derive(Clone, Copy, Debug, PartialEq, Eq, Structural)]
pub enum ReplierPhase {
    /// The query to be sent.
    Sending,
    /// The reply.
    Receiving,
    /// Nothing.
    Done,
}

/// The progress of a query that was sent to a replier port.
pub struct ReplierSender {
    phase: ReplierPhase,
}

impl ReplierSender {
    /// What the sender waits for.
    pub closed spec fn phase(self) -> ReplierPhase {
        self.phase
    }

    /// Starts sending a query.
    pub fn new() -> (sender: Self)
        ensures
            sender.phase() is Sending,
    {
        ReplierSender { phase: ReplierPhase::Sending }
    }

    /// Takes note that the query was sent or could not be sent. In the latter
    /// case, the sender is done.
    pub fn sent(&mut self, result: Result<(), SendError>) -> (r: Result<(), SendError>)
        requires
            old(self).phase() is Sending,
        ensures
            r == result,
            final(self).phase() == if result is Ok {
                ReplierPhase::Receiving
            } else {
                ReplierPhase::Done
            },
    {
        self.phase = if result.is_ok() {
            ReplierPhase::Receiving
        } else {
            ReplierPhase::Done
        };
        result
    }

    /// Takes note of the reply.
    ///
    /// If there is none, it most likely means that the mailbox was dropped
    /// before the query was processed.
    pub fn received<R>(&mut self, reply: Result<R, RecvError>) -> (r: Result<R, SendError>)
        requires
            old(self).phase() is Receiving,
        ensures
            final(self).phase() is Done,
            match reply {
                Ok(value) => r == Ok::<R, SendError>(value),
                Err(_) => r is Err,
            },
    {
        self.phase = ReplierPhase::Done;
        match reply {
            Ok(value) => Ok(value),
            Err(_) => Err(SendError),
        }
    }

    /// Takes note of the reply and maps it with the provided function.
    pub fn received_and_mapped<Q, R, D>(&mut self, reply: Result<Q, RecvError>, reply_map: &D) -> (r:
        Result<R, SendError>) where D: Fn(Q) -> R
        requires
            old(self).phase() is Receiving,
            reply matches Ok(value) ==> reply_map.requires((value,)),
        ensures
            final(self).phase() is Done,
            match (reply, r) {
                (Ok(value), Ok(mapped)) => reply_map.ensures((value,), mapped),
                (Err(_), Err(_)) => true,
                _ => false,
            },
    {
        match self.received(reply) {
            Ok(value) => Ok(reply_map(value)),
            Err(e) => Err(e),
        }
    }
}

} // verus!
