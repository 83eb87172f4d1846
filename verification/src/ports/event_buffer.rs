//! Event sink with a bounded size.

use std::collections::VecDeque;
use vstd::prelude::*;

verus! {

/// Default capacity of an [`EventBuffer`] constructed with
/// [`EventBuffer::new`].
pub const DEFAULT_CAPACITY: usize = 16;

/// The last events, up to the given count.
pub open spec fn last_events<T>(events: Seq<T>, count: nat) -> Seq<T> {
    if events.len() <= count {
        events
    } else {
        events.skip(events.len() - count)
    }
}

/// Whether the outcome can result from passing all events in order to a function,
/// along with a value that the function updates each time, until it fails.
pub open spec fn folded<T, B, E, F>(
    f: F,
    value: B,
    events: Seq<T>,
    outcome: Result<B, E>,
) -> bool where F: Fn(B, T) -> Result<B, E>
    decreases events.len(),
{
    if events.len() == 0 {
        outcome == Ok::<B, E>(value)
    } else {
        exists|next: Result<B, E>| #[trigger]
            f.ensures((value, events[0]), next) && match next {
                Ok(value) => folded(f, value, events.drop_first(), outcome),
                Err(_) => outcome == next,
            }
    }
}

/// An event sink with a bounded size.
///
/// If the maximum capacity is exceeded, older events are overwritten. Events
/// are returned in first-in-first-out order. Note that even if
/// [`EventBuffer::next`] returns `None`, it may still produce more items in the
/// future.
pub struct EventBuffer<T> {
    capacity: usize,
    is_open: bool,
    buffer: VecDeque<T>,
}

impl<T> View for EventBuffer<T> {
    type V = Seq<T>;

    /// The events, from the oldest to the newest.
    closed spec fn view(&self) -> Seq<T> {
        self.buffer@
    }
}

impl<T> EventBuffer<T> {
    /// The maximum number of events.
    pub closed spec fn capacity(self) -> usize {
        self.capacity
    }

    /// Whether events are accepted.
    pub closed spec fn is_open(self) -> bool {
        self.is_open
    }

    /// The number of events does not exceed the capacity.
    pub closed spec fn wf(self) -> bool {
        self@.len() <= self.capacity
    }

    /// The size of the buffer is bounded by its capacity.
    pub proof fn law_bounded(self)
        requires
            self.wf(),
        ensures
            self@.len() <= self.capacity(),
    {
    }

    /// Creates an open `EventBuffer` with the default capacity.
    pub fn new() -> (buffer: Self)
        ensures
            buffer.wf(),
            buffer.is_open(),
            buffer.capacity() == DEFAULT_CAPACITY,
            buffer@ == Seq::<T>::empty(),
    {
        EventBuffer::with_capacity(DEFAULT_CAPACITY)
    }

    /// Creates a closed `EventBuffer` with the default capacity.
    pub fn new_closed() -> (buffer: Self)
        ensures
            buffer.wf(),
            !buffer.is_open(),
            buffer.capacity() == DEFAULT_CAPACITY,
            buffer@ == Seq::<T>::empty(),
    {
        EventBuffer::with_capacity_closed(DEFAULT_CAPACITY)
    }

    /// Creates an open `EventBuffer` with the specified capacity.
    pub fn with_capacity(capacity: usize) -> (buffer: Self)
        ensures
            buffer.wf(),
            buffer.is_open(),
            buffer.capacity() == capacity,
            buffer@ == Seq::<T>::empty(),
    {
        EventBuffer { capacity, is_open: true, buffer: VecDeque::new() }
    }

    /// Creates a closed `EventBuffer` with the specified capacity.
    pub fn with_capacity_closed(capacity: usize) -> (buffer: Self)
        ensures
            buffer.wf(),
            !buffer.is_open(),
            buffer.capacity() == capacity,
            buffer@ == Seq::<T>::empty(),
    {
        EventBuffer { capacity, is_open: false, buffer: VecDeque::new() }
    }

    /// Pushes an event onto the queue, unless it is closed.
    ///
    /// If the capacity is exceeded, the oldest event is removed.
    pub fn write(&mut self, event: T)
        requires
            old(self).wf(),
        ensures
            final(self).wf(),
            final(self).is_open() == old(self).is_open(),
            final(self).capacity() == old(self).capacity(),
            final(self)@ == if old(self).is_open() {
                last_events(old(self)@.push(event), old(self).capacity() as nat)
            } else {
                old(self)@
            },
    {
        if !self.is_open || self.capacity == 0 {
            proof {
                if self.is_open {
                    assert(old(self)@.push(event).skip(1) =~= old(self)@);
                }
            }
            return;
        }
        if self.buffer.len() == self.capacity {
            self.buffer.pop_front();
        }
        self.buffer.push_back(event);
        proof {
            if old(self)@.len() == self.capacity {
                assert(self@ =~= old(self)@.push(event).skip(1));
            }
        }
    }

    /// Removes the oldest event, if any.
    pub fn next(&mut self) -> (event: Option<T>)
        requires
            old(self).wf(),
        ensures
            final(self).wf(),
            final(self).is_open() == old(self).is_open(),
            final(self).capacity() == old(self).capacity(),
            match event {
                Some(event) => old(self)@.len() > 0 && event == old(self)@[0] && final(self)@ == old(self)@.drop_first(),
                None => old(self)@.len() == 0 && final(self)@ == old(self)@,
            },
    {
        let event = self.buffer.pop_front();
        proof {
            if event is Some {
                assert(self@ =~= old(self)@.drop_first());
            }
        }
        event
    }

    /// Removes all events, from the oldest to the newest.
    pub fn drain(&mut self) -> (events: Vec<T>)
        requires
            old(self).wf(),
        ensures
            final(self).wf(),
            final(self).is_open() == old(self).is_open(),
            final(self).capacity() == old(self).capacity(),
            events@ == old(self)@,
            final(self)@ == Seq::<T>::empty(),
    {
        let mut events: Vec<T> = Vec::new();
        loop
            invariant
                self.wf(),
                self.is_open() == old(self).is_open(),
                self.capacity() == old(self).capacity(),
                events@ + self@ =~= old(self)@,
            ensures
                self@.len() == 0,
            decreases self@.len(),
        {
            match self.next() {
                Some(event) => events.push(event),
                None => {
                    break;
                },
            }
        }
        events
    }

    /// Removes all events and passes them in order to a function, along with a
    /// value that the function updates each time, until it fails.
    pub fn try_fold<B, F, E>(&mut self, init: B, f: F) -> (outcome: Result<B, E>) where
        F: Fn(B, T) -> Result<B, E>,

        requires
            old(self).wf(),
            forall|value: B, event: T| #[trigger] f.requires((value, event)),
        ensures
            final(self).wf(),
            final(self).is_open() == old(self).is_open(),
            final(self).capacity() == old(self).capacity(),
            final(self)@ == Seq::<T>::empty(),
            folded(f, init, old(self)@, outcome),
    {
        let ghost all = self@;
        let mut value: B = init;
        loop
            invariant
                self.wf(),
                self.is_open() == old(self).is_open(),
                self.capacity() == old(self).capacity(),
                forall|value: B, event: T| #[trigger] f.requires((value, event)),
                all == old(self)@,
                forall|outcome: Result<B, E>| #[trigger]
                    folded(f, value, self@, outcome) ==> folded(f, init, all, outcome),
            decreases self@.len(),
        {
            let ghost remaining = self@;
            match self.next() {
                Some(event) => {
                    let ghost last = value;
                    let next = f(value, event);
                    assert(f.ensures((last, remaining[0]), next));
                    match next {
                        Ok(updated) => {
                            proof {
                                assert forall|outcome: Result<B, E>| #[trigger]
                                    folded(f, updated, self@, outcome) implies folded(
                                    f,
                                    init,
                                    all,
                                    outcome,
                                ) by {
                                    assert(folded(f, last, remaining, outcome));
                                }
                            }
                            value = updated;
                        },
                        Err(e) => {
                            self.drain();
                            assert(folded(f, last, remaining, Err::<B, E>(e)));
                            return Err(e);
                        },
                    }
                },
                None => {
                    assert(folded(f, value, self@, Ok::<B, E>(value)));
                    return Ok(value);
                },
            }
        }
    }

    /// Starts or resumes the collection of new events.
    pub fn open(&mut self)
        requires
            old(self).wf(),
        ensures
            final(self).wf(),
            final(self).is_open(),
            final(self).capacity() == old(self).capacity(),
            final(self)@ == old(self)@,
    {
        self.is_open = true;
    }

    /// Pauses the collection of new events.
    ///
    /// Events that were previously in the buffer remain available.
    pub fn close(&mut self)
        requires
            old(self).wf(),
        ensures
            final(self).wf(),
            !final(self).is_open(),
            final(self).capacity() == old(self).capacity(),
            final(self)@ == old(self)@,
    {
        self.is_open = false;
    }
}

impl<T> Default for EventBuffer<T> {
    fn default() -> (buffer: Self)
        ensures
            buffer.wf(),
            buffer.is_open(),
            buffer.capacity() == DEFAULT_CAPACITY,
            buffer@ == Seq::<T>::empty(),
    {
        EventBuffer::new()
    }
}

/// The events in an open buffer after some more were written.
pub open spec fn written<T>(events: Seq<T>, capacity: nat, more: Seq<T>) -> Seq<T>
    decreases more.len(),
{
    if more.len() == 0 {
        events
    } else {
        last_events(written(events, capacity, more.drop_last()).push(more.last()), capacity)
    }
}

/// However many events are written, the newest ones are kept in order.
pub proof fn law_newest_events_are_kept<T>(events: Seq<T>, capacity: nat, more: Seq<T>)
    requires
        events.len() <= capacity,
    ensures
        written(events, capacity, more) == last_events(events + more, capacity),
    decreases more.len(),
{
    if more.len() == 0 {
        assert(events + more =~= events);
    } else {
        law_newest_events_are_kept(events, capacity, more.drop_last());
        let before = events + more.drop_last();
        assert(events + more =~= before.push(more.last()));
        if before.len() > capacity {
            assert(last_events(last_events(before, capacity).push(more.last()), capacity)
                =~= last_events(before.push(more.last()), capacity));
        }
    }
}

/// As many events are kept as there is room for: the newest ones, in the order in which
/// they were written.
pub proof fn law_kept_events<T>(events: Seq<T>, capacity: nat, more: Seq<T>, i: int)
    requires
        events.len() <= capacity,
    ensures
        written(events, capacity, more).len() == if events.len() + more.len() <= capacity {
            events.len() + more.len()
        } else {
            capacity
        },
        // The i-th event from the end.
        0 <= i < written(events, capacity, more).len() ==> written(events, capacity, more)[written(
            events,
            capacity,
            more,
        ).len() - 1 - i] == if i < more.len() {
            more[more.len() - 1 - i]
        } else {
            events[events.len() - 1 - (i - more.len())]
        },
{
    law_newest_events_are_kept(events, capacity, more);
}

/// A write adds the event behind all others, and removes the oldest one if and only if
/// the capacity would be exceeded.
pub proof fn law_write<T>(events: Seq<T>, capacity: nat, event: T)
    requires
        events.len() <= capacity,
    ensures
        events.len() < capacity ==> last_events(events.push(event), capacity) == events + seq![
            event,
        ],
        events.len() == capacity && capacity > 0 ==> last_events(events.push(event), capacity)
            == events.subrange(1, events.len() as int) + seq![event],
        capacity == 0 ==> last_events(events.push(event), capacity).len() == 0,
{
    assert(events.push(event) =~= events + seq![event]);
    if events.len() == capacity && capacity > 0 {
        assert(last_events(events.push(event), capacity) =~= events.subrange(
            1,
            events.len() as int,
        ) + seq![event]);
    }
}

/// All events are passed to the function, in order and once each, along with the value
/// that it returned for the previous one, until it fails. The outcome is the last
/// value, or the error.
///
/// The successive values are returned.
pub proof fn law_all_events_are_folded<T, B, E, F>(
    f: F,
    init: B,
    events: Seq<T>,
    outcome: Result<B, E>,
) -> (values: Seq<B>) where F: Fn(B, T) -> Result<B, E>
    requires
        folded(f, init, events, outcome),
    ensures
        0 < values.len() <= events.len() + 1,
        values[0] == init,
        forall|i: int| #![trigger values[i]]
            0 <= i < values.len() - 1 ==> f.ensures((values[i], events[i]), Ok(values[i + 1])),
        match outcome {
            Ok(value) => values.len() == events.len() + 1 && values.last() == value,
            Err(e) => values.len() <= events.len() && f.ensures(
                (values.last(), events[values.len() - 1]),
                Err(e),
            ),
        },
    decreases events.len(),
{
    if events.len() == 0 {
        seq![init]
    } else {
        let next = choose|next: Result<B, E>| #[trigger]
            f.ensures((init, events[0]), next) && match next {
                Ok(value) => folded(f, value, events.drop_first(), outcome),
                Err(_) => outcome == next,
            };
        match next {
            Ok(value) => {
                let rest = law_all_events_are_folded(f, value, events.drop_first(), outcome);
                let values = seq![init] + rest;
                assert forall|i: int| #![trigger values[i]]
                    0 <= i < values.len() - 1 implies f.ensures(
                    (values[i], events[i]),
                    Ok(values[i + 1]),
                ) by {
                    if i > 0 {
                        assert(values[i] == rest[i - 1]);
                        assert(values[i + 1] == rest[i - 1 + 1]);
                        assert(events.drop_first()[i - 1] == events[i]);
                    } else {
                        assert(values[1] == rest[0]);
                    }
                }
                assert(values.last() == rest.last());
                values
            },
            Err(_) => {
                let values = seq![init];
                values
            },
        }
    }
}

} // verus!
