//! Event sink that only keeps the last event.

use vstd::prelude::*;

verus! {

/// An event sink that only keeps the last event.
///
/// Once the value is read, [`EventSlot::next`] returns `None` until a new value
/// is received. If the slot contains a value when a new value is received, the
/// previous value is overwritten.
pub struct EventSlot<T> {
    is_open: bool,
    slot: Option<T>,
}

impl<T> EventSlot<T> {
    /// Whether events are accepted.
    pub closed spec fn is_open(self) -> bool {
        self.is_open
    }

    /// The last event, unless it was read.
    pub closed spec fn content(self) -> Option<T> {
        self.slot
    }

    /// Creates an open `EventSlot`.
    pub fn new() -> (slot: Self)
        ensures
            slot.is_open(),
            slot.content() is None,
    {
        EventSlot { is_open: true, slot: None }
    }

    /// Creates a closed `EventSlot`.
    pub fn new_closed() -> (slot: Self)
        ensures
            !slot.is_open(),
            slot.content() is None,
    {
        EventSlot { is_open: false, slot: None }
    }

    /// Writes an event into the slot, unless it is closed.
    pub fn write(&mut self, event: T)
        ensures
            final(self).is_open() == old(self).is_open(),
            final(self).content() == if old(self).is_open() {
                Some(event)
            } else {
                old(self).content()
            },
    {
        // Ignore if the sink is closed.
        if !self.is_open {
            return;
        }
        self.slot = Some(event);
    }

    /// Reads the last event, if any.
    pub fn next(&mut self) -> (event: Option<T>)
        ensures
            event == old(self).content(),
            final(self).content() is None,
            final(self).is_open() == old(self).is_open(),
    {
        self.slot.take()
    }

    /// Starts or resumes the collection of new events.
    pub fn open(&mut self)
        ensures
            final(self).is_open(),
            final(self).content() == old(self).content(),
    {
        self.is_open = true;
    }

    /// Pauses the collection of new events.
    ///
    /// Events that were previously in the slot remain available.
    pub fn close(&mut self)
        ensures
            !final(self).is_open(),
            final(self).content() == old(self).content(),
    {
        self.is_open = false;
    }
}

impl<T> Default for EventSlot<T> {
    fn default() -> (slot: Self)
        ensures
            slot.is_open(),
            slot.content() is None,
    {
        EventSlot::new()
    }
}

} // verus!
