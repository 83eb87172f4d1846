//! Ports for event and query broadcasting.
//!
//! Models typically contain output and requestor ports, which broadcast events
//! and queries to the input and replier ports of other models, or events to
//! event sinks. This module keeps track of connections and decides to whom a
//! message goes and when a broadcast is complete; messages themselves are sent
//! by the caller.

pub mod broadcast_future;
pub mod broadcaster;
pub mod event_buffer;
pub mod event_slot;
pub mod markers;
pub mod output;
pub mod sender;
pub mod source;

use vstd::prelude::*;

verus! {

/// Unique identifier for a connection between two ports.
#[derive(Clone, Copy, Debug, PartialEq, Eq, Hash, Structural)]
pub struct LineId(u64);

impl LineId {
    /// The number of the line.
    pub closed spec fn number(self) -> u64 {
        self.0
    }

    /// The identifier of the line with the given number.
    pub(crate) fn new(number: u64) -> (id: Self)
        ensures
            id.number() == number,
    {
        LineId(number)
    }
}

/// Error raised when the specified line cannot be found.
#[derive(Clone, Copy, Debug, PartialEq, Eq, Structural)]
pub struct LineError {}

} // verus!
