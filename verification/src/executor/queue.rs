//! A double-ended FIFO work-stealing queue.
//!
//! The queue tracks its tail and head position within a ring buffer with
//! wrap-around integers, where the least significant bits specify the actual
//! buffer index. There are two heads: as long as items are being stolen, the
//! stealer head stays behind the worker head so that the slots of these items
//! are not reused and that no other stealing operation can begin.

use vstd::prelude::*;

use crate::util::ring::{
    is_buffer_capacity, lemma_distinct_indices, lemma_masked, lemma_wrapped_difference,
    lemma_wrapped_sum, wrapped,
};

verus! {

/// Error returned when stealing is unsuccessful.
#[derive(Clone, Copy, Debug, PartialEq, Eq, Structural)]
pub enum StealError {
    /// No item was stolen.
    Empty,
    /// Another stealing operation is ongoing.
    Busy,
}

impl StealError {
    /// The description of the error.
    pub fn to_text(&self) -> (text: String)
        ensures
            text@ == (match *self {
                StealError::Empty => "cannot steal from empty queue"@,
                StealError::Busy => "a concurrent steal operation is ongoing"@,
            }),
    {
        match self {
            StealError::Empty => "cannot steal from empty queue".to_owned(),
            StealError::Busy => "a concurrent steal operation is ongoing".to_owned(),
        }
    }
}

proof fn lemma_packing(worker_head: u32, stealer_head: u32, heads: u64)
    by (bit_vector)
    ensures
        ((((worker_head as u64) << 32) | stealer_head as u64) >> 32) as u32 == worker_head,
        (((worker_head as u64) << 32) | stealer_head as u64) as u32 == stealer_head,
        ((((heads >> 32) as u32) as u64) << 32) | (heads as u32) as u64 == heads,
        ((worker_head as u64) << 32) | stealer_head as u64 == 0x1_0000_0000 * worker_head
            + stealer_head,
        (heads >> 32) as u32 == heads / 0x1_0000_0000,
        heads as u32 == heads % 0x1_0000_0000,
{
}

/// Extracts the worker head and stealer head (in this order) from packed heads.
pub fn unpack_heads(heads: u64) -> (r: (u32, u32))
    ensures
        r.0 == heads / 0x1_0000_0000,
        r.1 == heads % 0x1_0000_0000,
{
    proof {
        lemma_packing(0, 0, heads);
    }
    ((heads >> 32) as u32, heads as u32)
}

/// Packs the worker head and the stealer head.
pub fn pack_heads(worker_head: u32, stealer_head: u32) -> (heads: u64)
    ensures
        heads == 0x1_0000_0000 * worker_head + stealer_head,
{
    proof {
        lemma_packing(worker_head, stealer_head, 0);
    }
    ((worker_head as u64) << 32) | stealer_head as u64
}

/// Unpacking gives back what was packed, and packing what was unpacked.
pub proof fn law_heads_round_trip(worker_head: u32, stealer_head: u32, heads: u64)
    ensures
        (0x1_0000_0000 * worker_head + stealer_head) / 0x1_0000_0000 == worker_head,
        (0x1_0000_0000 * worker_head + stealer_head) % 0x1_0000_0000 == stealer_head,
        0x1_0000_0000 * (heads as int / 0x1_0000_0000) + heads as int % 0x1_0000_0000 == heads,
{
}

/// The ranks that delimit the items of a queue, counting from the first item
/// ever pushed.
pub ghost struct Marks {
    /// Rank of the oldest item whose slot may not be reused.
    pub stealer: nat,
    /// Rank of the next item to be handed out by the ongoing steal.
    pub next_stolen: nat,
    /// Rank that follows the last item of the ongoing steal.
    pub end_stolen: nat,
    /// Rank of the next item to be popped.
    pub worker: nat,
    /// Rank of the next item to be pushed.
    pub tail: nat,
}

/// A FIFO queue from which items can be stolen.
pub struct Queue<T, const CAPACITY: usize> {
    /// Positions of the head as seen by the worker (most significant bits) and
    /// as seen by a stealer (least significant bits).
    heads: u64,
    /// Position of the tail.
    tail: u32,
    /// Queue items.
    buffer: Vec<Option<T>>,
    /// The corresponding ranks.
    marks: Ghost<Marks>,
}

impl<T, const CAPACITY: usize> Queue<T, CAPACITY> {
    /// The content of the slot of the item of rank `n`.
    spec fn slot(self, n: int) -> Option<T> {
        self.buffer@[n % (CAPACITY as int)]
    }

    /// Whether the slot of the item of rank `n` should hold an item.
    spec fn occupied(marks: Marks, n: int) -> bool {
        marks.next_stolen <= n < marks.end_stolen || marks.worker <= n < marks.tail
    }

    spec fn slots_ok(self) -> bool {
        let marks = self.marks@;
        forall|n: int|
            marks.stealer <= n < marks.stealer + CAPACITY ==> (#[trigger] self.slot(n) is Some
                == Self::occupied(marks, n))
    }

    spec fn positions_ok(self) -> bool {
        let marks = self.marks@;
        &&& self.heads / 0x1_0000_0000 == wrapped(marks.worker as int)
        &&& self.heads % 0x1_0000_0000 == wrapped(marks.stealer as int)
        &&& self.tail == wrapped(marks.tail as int)
    }

    /// The invariant of the queue.
    pub closed spec fn wf(self) -> bool {
        let marks = self.marks@;
        &&& is_buffer_capacity(CAPACITY)
        &&& self.buffer@.len() == CAPACITY
        &&& marks.stealer <= marks.next_stolen <= marks.end_stolen <= marks.worker <= marks.tail
        &&& marks.tail <= marks.stealer + CAPACITY
        &&& marks.stealer < marks.worker <==> marks.next_stolen < marks.end_stolen
        &&& self.positions_ok()
        &&& self.slots_ok()
    }

    /// The items that can be popped or stolen, oldest first.
    pub closed spec fn items(self) -> Seq<T> {
        Seq::new(
            (self.marks@.tail - self.marks@.worker) as nat,
            |i: int| self.slot(self.marks@.worker + i)->Some_0,
        )
    }

    /// The items that have been booked by the ongoing steal but have not been
    /// handed out yet, oldest first.
    pub closed spec fn stolen(self) -> Seq<T> {
        Seq::new(
            (self.marks@.end_stolen - self.marks@.next_stolen) as nat,
            |i: int| self.slot(self.marks@.next_stolen + i)->Some_0,
        )
    }

    /// Whether items are being stolen.
    pub open spec fn busy(self) -> bool {
        self.stolen().len() > 0
    }

    /// The number of slots which cannot be written to: those of the items, of
    /// the stolen items, and of the items handed out since the ongoing steal
    /// began.
    pub closed spec fn used(self) -> nat {
        (self.marks@.tail - self.marks@.stealer) as nat
    }

    /// All items fit in the buffer, and slots are only retained beyond the
    /// lifetime of their items while a steal is ongoing.
    pub proof fn law_bounded(self)
        requires
            self.wf(),
        ensures
            self.items().len() + self.stolen().len() <= self.used() <= CAPACITY,
            !self.busy() ==> self.used() == self.items().len(),
    {
    }

    proof fn lemma_marks(self)
        requires
            self.wf(),
        ensures
            CAPACITY <= 0x8000_0000,
            CAPACITY >= 1,
            self.heads / 0x1_0000_0000 == self.heads % 0x1_0000_0000 <==> self.marks@.worker
                == self.marks@.stealer,
            self.heads / 0x1_0000_0000 == self.tail <==> self.marks@.worker == self.marks@.tail,
    {
        lemma_masked(0, CAPACITY);
        lemma_wrapped_difference(self.marks@.stealer as int, self.marks@.worker as int);
        lemma_wrapped_difference(self.marks@.worker as int, self.marks@.tail as int);
    }

    /// Creates a new queue.
    pub fn new() -> (queue: Self)
        requires
            is_buffer_capacity(CAPACITY),
        ensures
            queue.wf(),
            queue.items() == Seq::<T>::empty(),
            !queue.busy(),
            queue.used() == 0,
    {
        let mut buffer: Vec<Option<T>> = Vec::new();
        let mut i: usize = 0;
        while i < CAPACITY
            invariant
                i <= CAPACITY,
                buffer@.len() == i,
                forall|j: int| 0 <= j < i ==> (#[trigger] buffer@[j]) is None,
            decreases CAPACITY - i,
        {
            buffer.push(None);
            i += 1;
        }
        let queue = Queue {
            heads: 0,
            tail: 0,
            buffer,
            marks: Ghost(
                Marks { stealer: 0, next_stolen: 0, end_stolen: 0, worker: 0, tail: 0 },
            ),
        };
        proof {
            lemma_masked(0, CAPACITY);
            assert(queue.items() =~= Seq::<T>::empty());
            assert(queue.stolen() =~= Seq::<T>::empty());
        }
        queue
    }

    /// Takes the item at the given position out of its slot.
    fn read_at(&mut self, position: u32, Ghost(n): Ghost<int>) -> (item: T)
        requires
            is_buffer_capacity(CAPACITY),
            old(self).buffer@.len() == CAPACITY,
            0 <= n,
            position == wrapped(n),
            old(self).slot(n) is Some,
        ensures
            final(self).buffer@ == old(self).buffer@.update(n % (CAPACITY as int), None),
            final(self).heads == old(self).heads,
            final(self).tail == old(self).tail,
            final(self).marks == old(self).marks,
            Some(item) == old(self).slot(n),
    {
        proof {
            lemma_masked(n, CAPACITY);
        }
        let index: usize = (position & (CAPACITY - 1) as u32) as usize;
        let mut content: Option<T> = None;
        std::mem::swap(&mut self.buffer[index], &mut content);
        content.unwrap()
    }

    /// Writes an item at the given position.
    fn write_at(&mut self, position: u32, item: T, Ghost(n): Ghost<int>)
        requires
            is_buffer_capacity(CAPACITY),
            old(self).buffer@.len() == CAPACITY,
            0 <= n,
            position == wrapped(n),
        ensures
            final(self).buffer@ == old(self).buffer@.update(n % (CAPACITY as int), Some(item)),
            final(self).heads == old(self).heads,
            final(self).tail == old(self).tail,
            final(self).marks == old(self).marks,
    {
        proof {
            lemma_masked(n, CAPACITY);
        }
        let index: usize = (position & (CAPACITY - 1) as u32) as usize;
        self.buffer.set(index, Some(item));
    }

    /// The slots of two ranks within the same window of the buffer differ.
    proof fn lemma_slots(self, a: int, b: int)
        requires
            0 <= a,
            0 <= b,
            a != b,
            -CAPACITY < a - b < CAPACITY,
        ensures
            a % (CAPACITY as int) != b % (CAPACITY as int),
            0 <= a % (CAPACITY as int) < CAPACITY,
            0 <= b % (CAPACITY as int) < CAPACITY,
    {
        if a < b {
            lemma_distinct_indices(a, b, CAPACITY as int);
        } else {
            lemma_distinct_indices(b, a, CAPACITY as int);
        }
    }

    /// Returns the number of items that can be successfully pushed onto the
    /// queue.
    pub fn spare_capacity(&self) -> (spare: usize)
        requires
            self.wf(),
        ensures
            spare == CAPACITY - self.used(),
    {
        let stealer_head: u32 = unpack_heads(self.heads).1;
        proof {
            self.lemma_marks();
            lemma_wrapped_difference(self.marks@.stealer as int, self.marks@.tail as int);
        }
        let len: u32 = self.tail.wrapping_sub(stealer_head);
        CAPACITY - len as usize
    }

    /// Attempts to push one item at the tail of the queue.
    ///
    /// This fails if the queue is full, in which case the item is handed back.
    pub fn push(&mut self, item: T) -> (r: Result<(), T>)
        requires
            old(self).wf(),
        ensures
            final(self).wf(),
            final(self).stolen() == old(self).stolen(),
            old(self).used() == CAPACITY ==> r == Err::<(), T>(item) && *final(self) == *old(self),
            old(self).used() < CAPACITY ==> {
                &&& r is Ok
                &&& final(self).items() == old(self).items().push(item)
                &&& final(self).used() == old(self).used() + 1
            },
            forall|d: Drain| #[trigger] final(self).drained_by(d) == old(self).drained_by(d),
    {
        let stealer_head: u32 = unpack_heads(self.heads).1;
        proof {
            self.lemma_marks();
            lemma_wrapped_difference(self.marks@.stealer as int, self.marks@.tail as int);
        }

        // Check that the buffer is not full.
        if self.tail.wrapping_sub(stealer_head) as usize >= CAPACITY {
            return Err(item);
        }
        self.append(item);
        Ok(())
    }

    /// Pushes one item, for which there is some space.
    fn append(&mut self, item: T)
        requires
            old(self).wf(),
            old(self).used() < CAPACITY,
        ensures
            final(self).wf(),
            final(self).stolen() == old(self).stolen(),
            final(self).items() == old(self).items().push(item),
            final(self).used() == old(self).used() + 1,
            final(self).heads == old(self).heads,
            final(self).marks@ == (Marks {
                tail: old(self).marks@.tail + 1,
                ..old(self).marks@
            }),
    {
        let ghost marks = self.marks@;
        let ghost n = marks.tail as int;
        let tail: u32 = self.tail;
        proof {
            lemma_wrapped_sum(n, 1);
        }
        self.write_at(tail, item, Ghost(n));
        self.tail = tail.wrapping_add(1);
        self.marks = Ghost(Marks { tail: marks.tail + 1, ..marks });
        proof {
            let cap = CAPACITY as int;
            assert forall|m: int| marks.stealer <= m < marks.stealer + CAPACITY implies (
            #[trigger] self.slot(m) is Some == Self::occupied(self.marks@, m)) by {
                assert(old(self).slot(m) is Some == Self::occupied(marks, m));
                if m != n {
                    self.lemma_slots(m, n);
                }
            }
            assert forall|m: int| marks.stealer <= m < marks.stealer + CAPACITY && m
                != n implies #[trigger] self.slot(m) == old(self).slot(m) by {
                self.lemma_slots(m, n);
            }
            assert(0 <= n % cap < cap);
            assert(self.slot(n) == Some(item));
            assert(self.items() =~= old(self).items().push(item));
            assert(self.stolen() =~= old(self).stolen());
        }
    }

    /// Pushes items at the tail of the queue, in order.
    ///
    /// It is the responsibility of the caller to ensure that there is enough
    /// spare capacity to accommodate all items, for instance by calling
    /// [`spare_capacity`](Queue::spare_capacity) beforehand. Otherwise, the
    /// items in excess are dropped.
    pub fn extend(&mut self, items: Vec<T>)
        requires
            old(self).wf(),
        ensures
            final(self).wf(),
            final(self).stolen() == old(self).stolen(),
            ({
                let spare = CAPACITY - old(self).used();
                let count = if items@.len() <= spare {
                    items@.len() as int
                } else {
                    spare
                };
                &&& final(self).items() == old(self).items() + items@.take(count)
                &&& final(self).used() == old(self).used() + count
            }),
            forall|d: Drain| #[trigger] final(self).drained_by(d) == old(self).drained_by(d),
    {
        let ghost given = items@;
        let ghost start = *self;
        let ghost spare = CAPACITY - self.used();
        proof {
            self.law_bounded();
            assert(self.items() + given.take(0) =~= self.items());
        }
        for item in iter: items
            invariant
                self.wf(),
                iter.seq() == given,
                spare == CAPACITY - start.used(),
                spare >= 0,
                self.stolen() == start.stolen(),
                ({
                    let count = if iter.index() <= spare {
                        iter.index() as int
                    } else {
                        spare
                    };
                    &&& self.items() == start.items() + given.take(count)
                    &&& self.used() == start.used() + count
                }),
                forall|d: Drain| #[trigger] self.drained_by(d) == start.drained_by(d),
        {
            proof {
                let count = iter.index() as int;
                if count < spare {
                    assert(given.take(count).push(item) =~= given.take(count + 1));
                    assert((start.items() + given.take(count)).push(item) =~= start.items()
                        + given.take(count + 1));
                }
            }
            let _ = self.push(item);
        }
    }

    /// Attempts to pop one item from the head of the queue.
    ///
    /// This returns `None` if the queue is empty.
    pub fn pop(&mut self) -> (r: Option<T>)
        requires
            old(self).wf(),
        ensures
            final(self).wf(),
            final(self).stolen() == old(self).stolen(),
            old(self).items().len() == 0 ==> r is None && *final(self) == *old(self),
            old(self).items().len() > 0 ==> {
                &&& r == Some(old(self).items()[0])
                &&& final(self).items() == old(self).items().drop_first()
                &&& final(self).used() == (if old(self).busy() {
                    old(self).used() as int
                } else {
                    old(self).used() - 1
                })
            },
            forall|d: Drain| #[trigger] final(self).drained_by(d) == old(self).drained_by(d),
    {
        let (worker_head, stealer_head) = unpack_heads(self.heads);
        let ghost marks = self.marks@;
        let ghost n = marks.worker as int;
        proof {
            self.lemma_marks();
            lemma_wrapped_sum(marks.worker as int, 1);
            lemma_wrapped_sum(marks.stealer as int, 1);
        }

        // Check if the queue is empty.
        if self.tail == worker_head {
            return None;
        }

        // Move the worker head, and the stealer head along with it unless
        // items are being stolen.
        let busy = stealer_head != worker_head;
        let next_stealer_head: u32 = if busy {
            stealer_head
        } else {
            stealer_head.wrapping_add(1)
        };
        proof {
            assert(self.slot(n) is Some == Self::occupied(marks, n));
        }
        let item = self.read_at(worker_head, Ghost(n));
        self.heads = pack_heads(worker_head.wrapping_add(1), next_stealer_head);
        self.marks = Ghost(
            if marks.stealer != marks.worker {
                Marks { worker: marks.worker + 1, ..marks }
            } else {
                Marks {
                    stealer: marks.stealer + 1,
                    next_stolen: marks.stealer + 1,
                    end_stolen: marks.stealer + 1,
                    worker: marks.worker + 1,
                    ..marks
                }
            },
        );
        proof {
            let cap = CAPACITY as int;
            assert(0 <= n % cap < cap);
            let stealer = self.marks@.stealer as int;
            assert forall|m: int| stealer <= m < stealer + CAPACITY implies (
            #[trigger] self.slot(m) is Some == Self::occupied(self.marks@, m)) by {
                if m == marks.stealer + CAPACITY {
                    // The slot of the item that was just popped is free for the
                    // item that comes a whole buffer later.
                    assert(m % cap == n % cap) by {
                        vstd::arithmetic::div_mod::lemma_mod_add_multiples_vanish(n, cap);
                    }
                } else {
                    assert(old(self).slot(m) is Some == Self::occupied(marks, m));
                    if m != n {
                        self.lemma_slots(m, n);
                    }
                }
            }
            assert forall|m: int| marks.stealer <= m < marks.stealer + CAPACITY && m
                != n implies #[trigger] self.slot(m) == old(self).slot(m) by {
                self.lemma_slots(m, n);
            }
            assert(self.items() =~= old(self).items().drop_first());
            assert(self.stolen() =~= old(self).stolen());
        }
        Some(item)
    }

    /// Attempts to book items for stealing, in a number specified by a closure
    /// which takes as argument the total count of available items.
    ///
    /// In case of success, the returned tuple contains the stealer head and an
    /// item count at least equal to 1, in this order.
    ///
    /// An error is returned if no item can be stolen, either because the queue
    /// is empty or because the closure returned 0, or if another stealing
    /// operation is ongoing.
    fn book_items<F: Fn(usize) -> usize>(&mut self, count_fn: F, max_count: u32) -> (r: Result<
        (u32, u32),
        StealError,
    >)
        requires
            old(self).wf(),
            forall|n: usize| 0 < n <= CAPACITY ==> count_fn.requires((n,)),
        ensures
            final(self).wf(),
            final(self).used() == old(self).used(),
            booked(
                old(self).busy(),
                old(self).items(),
                count_fn,
                max_count as nat,
                match r {
                    Ok((_, count)) => Ok(count as nat),
                    Err(error) => Err(error),
                },
                final(self).stolen(),
                final(self).items(),
            ),
            match r {
                Ok((head, count)) => {
                    &&& head == wrapped(old(self).marks@.stealer as int)
                    &&& final(self).tail == old(self).tail
                    &&& final(self).buffer == old(self).buffer
                    &&& final(self).marks@ == (Marks {
                        end_stolen: old(self).marks@.stealer + count as nat,
                        worker: old(self).marks@.worker + count as nat,
                        ..old(self).marks@
                    })
                    &&& old(self).marks@.stealer == old(self).marks@.worker
                },
                Err(_) => *final(self) == *old(self),
            },
    {
        let (worker_head, stealer_head) = unpack_heads(self.heads);
        let ghost marks = self.marks@;
        proof {
            self.lemma_marks();
            lemma_wrapped_difference(marks.worker as int, marks.tail as int);
        }

        // Bail out if both heads differ because it means another stealing
        // operation is ongoing.
        if stealer_head != worker_head {
            return Err(StealError::Busy);
        }
        let item_count: u32 = self.tail.wrapping_sub(worker_head);
        if item_count == 0 {
            return Err(StealError::Empty);
        }
        let wanted: usize = count_fn(item_count as usize);
        let count: u32 = if wanted <= max_count as usize && wanted <= item_count as usize {
            wanted as u32
        } else if max_count <= item_count {
            max_count
        } else {
            item_count
        };
        assert(count_fn.ensures((item_count as usize,), wanted));
        if count == 0 {
            return Err(StealError::Empty);
        }

        // Move the worker head only.
        self.heads = pack_heads(worker_head.wrapping_add(count), stealer_head);
        self.marks = Ghost(
            Marks {
                end_stolen: marks.stealer + count as nat,
                worker: marks.worker + count as nat,
                ..marks
            },
        );
        proof {
            lemma_wrapped_sum(marks.worker as int, count);
            assert forall|m: int| marks.stealer <= m < marks.stealer + CAPACITY implies (
            #[trigger] self.slot(m) is Some == Self::occupied(self.marks@, m)) by {
                assert(old(self).slot(m) is Some == Self::occupied(marks, m));
            }
            assert(self.items() =~= old(self).items().skip(count as int));
            assert(self.stolen() =~= old(self).items().take(count as int));
        }
        Ok((stealer_head, count))
    }

    /// Begins to steal items from the head of the queue.
    ///
    /// The number of items is specified by a closure which takes as argument
    /// the total count of items available for stealing; it is reduced to that
    /// count if it exceeds it.
    ///
    /// An error is returned if no item can be stolen, either because the queue
    /// is empty or because the closure returned 0, or if another stealing
    /// operation is ongoing.
    pub fn drain<F: Fn(usize) -> usize>(&mut self, count_fn: F) -> (r: Result<Drain, StealError>)
        requires
            old(self).wf(),
            forall|n: usize| 0 < n <= CAPACITY ==> count_fn.requires((n,)),
        ensures
            final(self).wf(),
            final(self).used() == old(self).used(),
            booked(
                old(self).busy(),
                old(self).items(),
                count_fn,
                CAPACITY as nat,
                match r {
                    Ok(_) => Ok(final(self).stolen().len()),
                    Err(error) => Err(error),
                },
                final(self).stolen(),
                final(self).items(),
            ),
            match r {
                Ok(drain) => final(self).drained_by(drain),
                Err(_) => *final(self) == *old(self),
            },
    {
        proof {
            self.lemma_marks();
        }
        match self.book_items(count_fn, u32::MAX) {
            Ok((head, count)) => {
                proof {
                    lemma_wrapped_sum(old(self).marks@.stealer as int, count);
                    lemma_wrapped_difference(
                        self.marks@.next_stolen as int,
                        self.marks@.end_stolen as int,
                    );
                }
                Ok(Drain { head, to_head: head.wrapping_add(count) })
            },
            Err(error) => Err(error),
        }
    }

    /// Hands out the next item of a draining operation, if there is any left.
    ///
    /// The steal is over as soon as the last item is handed out.
    pub fn next_drained(&mut self, drain: &mut Drain) -> (r: Option<T>)
        requires
            old(self).wf(),
            old(drain).done() || old(self).drained_by(*old(drain)),
        ensures
            final(self).wf(),
            final(self).items() == old(self).items(),
            if old(drain).done() {
                r is None && *final(self) == *old(self) && final(drain).done()
            } else {
                &&& old(self).busy()
                &&& r == Some(old(self).stolen()[0])
                &&& final(self).stolen() == old(self).stolen().drop_first()
                &&& final(drain).done() == (final(self).stolen().len() == 0)
                &&& !final(drain).done() ==> final(self).drained_by(*final(drain))
                    && final(self).used() == old(self).used()
            },
    {
        if drain.head == drain.to_head {
            return None;
        }
        let ghost marks = self.marks@;
        let ghost n = marks.next_stolen as int;
        proof {
            self.lemma_marks();
            assert(self.slot(n) is Some == Self::occupied(marks, n));
            lemma_wrapped_sum(n, 1);
            lemma_wrapped_difference(n + 1, marks.end_stolen as int);
        }
        let item = self.read_at(drain.head, Ghost(n));
        drain.head = drain.head.wrapping_add(1);
        self.marks = Ghost(Marks { next_stolen: marks.next_stolen + 1, ..marks });
        if drain.head == drain.to_head {
            // Signal that the stealing operation has completed.
            let (worker_head, _) = unpack_heads(self.heads);
            self.heads = pack_heads(worker_head, worker_head);
            self.marks = Ghost(
                Marks {
                    stealer: marks.worker,
                    next_stolen: marks.worker,
                    end_stolen: marks.worker,
                    ..marks
                },
            );
        }
        proof {
            Self::lemma_slot_vacated(*old(self), *self, n);
            assert(self.items() =~= old(self).items());
            assert(self.stolen() =~= old(self).stolen().drop_first());
        }
        Some(item)
    }

    /// The slots after the item of rank `n`, the next to be stolen, was taken
    /// out.
    proof fn lemma_slot_vacated(before: Self, after: Self, n: int)
        requires
            before.wf(),
            before.marks@.next_stolen < before.marks@.end_stolen,
            n == before.marks@.next_stolen,
            after.buffer@ == before.buffer@.update(n % (CAPACITY as int), None),
            after.marks@ == (Marks { next_stolen: (n + 1) as nat, ..before.marks@ }) || (n + 1
                == before.marks@.end_stolen && after.marks@ == (Marks {
                stealer: before.marks@.worker,
                next_stolen: before.marks@.worker,
                end_stolen: before.marks@.worker,
                ..before.marks@
            })),
        ensures
            after.slots_ok(),
            forall|m: int|
                before.marks@.stealer <= m < before.marks@.stealer + CAPACITY && m != n
                    ==> #[trigger] after.slot(m) == before.slot(m),
    {
        let marks = before.marks@;
        let cap = CAPACITY as int;
        before.lemma_marks();
        assert(0 <= n % cap < cap);
        let stealer = after.marks@.stealer as int;
        assert forall|m: int| stealer <= m < stealer + CAPACITY implies (#[trigger] after.slot(
            m,
        ) is Some == Self::occupied(after.marks@, m)) by {
            let k = if m < marks.stealer + CAPACITY {
                m
            } else {
                m - CAPACITY
            };
            assert(m % cap == k % cap) by {
                vstd::arithmetic::div_mod::lemma_mod_add_multiples_vanish(k, cap);
            }
            assert(before.slot(k) is Some == Self::occupied(marks, k));
            if k != n {
                before.lemma_slots(k, n);
            }
        }
        assert forall|m: int| marks.stealer <= m < marks.stealer + CAPACITY && m
            != n implies #[trigger] after.slot(m) == before.slot(m) by {
            before.lemma_slots(m, n);
        }
    }

    /// Hands out all remaining items of a draining operation, which ends the
    /// steal.
    pub fn drain_all(&mut self, drain: Drain) -> (items: Vec<T>)
        requires
            old(self).wf(),
            old(self).drained_by(drain),
        ensures
            final(self).wf(),
            items@ == old(self).stolen(),
            !final(self).busy(),
            final(self).items() == old(self).items(),
    {
        let mut drain = drain;
        let mut items: Vec<T> = Vec::new();
        let ghost stolen = self.stolen();
        proof {
            self.lemma_marks();
            lemma_wrapped_difference(
                self.marks@.next_stolen as int,
                self.marks@.end_stolen as int,
            );
            assert(items@ + self.stolen() =~= stolen);
        }
        loop
            invariant
                self.wf(),
                drain.done() || self.drained_by(drain),
                self.items() == old(self).items(),
                items@ + self.stolen() == stolen,
                drain.done() ==> self.stolen().len() == 0,
            ensures
                self.wf(),
                !self.busy(),
                self.items() == old(self).items(),
                items@ == stolen,
            decreases self.stolen().len(),
        {
            let ghost before = *self;
            let ghost taken = items@;
            match self.next_drained(&mut drain) {
                Some(item) => {
                    items.push(item);
                    proof {
                        assert(before.stolen() =~= seq![item] + self.stolen());
                        assert(items@ + self.stolen() =~= taken + before.stolen());
                    }
                },
                None => {
                    proof {
                        assert(self.stolen() =~= Seq::<T>::empty());
                        assert(items@ + self.stolen() =~= items@);
                    }
                    break;
                },
            }
        }
        items
    }

    /// Attempts to steal items from the head of the queue, returning one of
    /// them directly and moving the others to the tail of another queue.
    ///
    /// The number of items (including the one returned directly) is specified
    /// by a closure which takes as argument the total count of items available
    /// for stealing; it is reduced to that count, and to what the destination
    /// queue can take, if it exceeds it. The returned item is the most recent
    /// one among the stolen items.
    ///
    /// An error is returned if no item was stolen, either because the queue is
    /// empty or because the closure returned 0, or if another stealing
    /// operation is ongoing.
    pub fn steal_and_pop<F: Fn(usize) -> usize, const DEST_CAPACITY: usize>(
        &mut self,
        dest: &mut Queue<T, DEST_CAPACITY>,
        count_fn: F,
    ) -> (r: Result<T, StealError>)
        requires
            old(self).wf(),
            old(dest).wf(),
            forall|n: usize| 0 < n <= CAPACITY ==> count_fn.requires((n,)),
        ensures
            final(self).wf(),
            final(dest).wf(),
            match r {
                Ok(item) => {
                    let count = old(self).items().len() - final(self).items().len();
                    &&& !old(self).busy()
                    &&& count >= 1
                    &&& stolen_count(
                        count_fn,
                        old(self).items().len(),
                        (DEST_CAPACITY - old(dest).used() + 1) as nat,
                        count as nat,
                    )
                    &&& item == old(self).items()[count - 1]
                    &&& final(self).items() == old(self).items().skip(count)
                    &&& !final(self).busy()
                    &&& final(dest).items() == old(dest).items() + old(self).items().take(
                        count - 1,
                    )
                    &&& final(dest).stolen() == old(dest).stolen()
                    &&& final(dest).used() == old(dest).used() + count - 1
                },
                Err(error) => {
                    &&& *final(self) == *old(self)
                    &&& *final(dest) == *old(dest)
                    &&& error is Busy <==> old(self).busy()
                    &&& error is Empty ==> old(self).items().len() == 0 || stolen_count(
                        count_fn,
                        old(self).items().len(),
                        (DEST_CAPACITY - old(dest).used() + 1) as nat,
                        0,
                    )
                },
            },
    {
        // Compute the free capacity of the destination queue.
        proof {
            self.lemma_marks();
            dest.lemma_marks();
            dest.law_bounded();
        }
        let dest_free_capacity: usize = dest.spare_capacity();
        let (stealer_head, count) = match self.book_items(
            count_fn,
            dest_free_capacity as u32 + 1,
        ) {
            Ok(r) => r,
            Err(error) => {
                return Err(error);
            },
        };
        let ghost all = old(self).items();
        let mut drain = Drain { head: stealer_head, to_head: stealer_head.wrapping_add(count) };
        proof {
            lemma_wrapped_sum(old(self).marks@.stealer as int, count);
            lemma_wrapped_difference(
                self.marks@.next_stolen as int,
                self.marks@.end_stolen as int,
            );
            assert(dest.items() + all.take(0) =~= dest.items());
            assert(all.take(count as int).skip(0) =~= all.take(count as int));
        }

        // Move all items but the last to the destination queue.
        let transfer_count: u32 = count - 1;
        let mut offset: u32 = 0;
        while offset < transfer_count
            invariant
                self.wf(),
                dest.wf(),
                offset <= transfer_count,
                count == transfer_count + 1,
                count <= all.len(),
                all == old(self).items(),
                transfer_count as int <= DEST_CAPACITY - old(dest).used(),
                self.items() == all.skip(count as int),
                self.stolen() == all.take(count as int).skip(offset as int),
                !drain.done(),
                self.drained_by(drain),
                dest.items() == old(dest).items() + all.take(offset as int),
                dest.stolen() == old(dest).stolen(),
                dest.used() == old(dest).used() + offset,
            decreases transfer_count - offset,
        {
            let item = self.next_drained(&mut drain).unwrap();
            proof {
                assert(item == all[offset as int]);
                assert(all.take(count as int).skip(offset as int).drop_first() =~= all.take(
                    count as int,
                ).skip(offset + 1));
                assert(all.take(offset as int).push(item) =~= all.take(offset + 1));
                assert((old(dest).items() + all.take(offset as int)).push(item) =~= old(
                    dest).items() + all.take(offset + 1));
            }
            dest.append(item);
            offset += 1;
        }

        // Read the last item, which completes the stealing operation.
        let last_item = self.next_drained(&mut drain).unwrap();
        assert(last_item == all[count - 1]);
        Ok(last_item)
    }

    /// Whether a draining operation is the ongoing steal of this queue.
    pub closed spec fn drained_by(self, drain: Drain) -> bool {
        &&& self.marks@.next_stolen < self.marks@.end_stolen
        &&& drain.head == wrapped(self.marks@.next_stolen as int)
        &&& drain.to_head == wrapped(self.marks@.end_stolen as int)
    }
}

/// A draining operation.
///
/// It must be carried through with [`Queue::next_drained`]: until then all
/// other stealing operations will fail with [`StealError::Busy`].
pub struct Drain {
    head: u32,
    to_head: u32,
}

impl Drain {
    /// Whether all items have been handed out.
    pub closed spec fn done(self) -> bool {
        self.head == self.to_head
    }
}

/// Whether a closure asks for the given number of items to be stolen, after
/// reduction to the number of available items and to a maximum.
pub open spec fn stolen_count<F: Fn(usize) -> usize>(
    count_fn: F,
    available: nat,
    max_count: nat,
    count: nat,
) -> bool {
    exists|wanted: usize| #[trigger]
        count_fn.ensures((available as usize,), wanted) && count == (if wanted <= max_count
            && wanted <= available {
            wanted as nat
        } else if max_count <= available {
            max_count
        } else {
            available
        })
}

/// The outcome of an attempt to book items for stealing.
pub open spec fn booked<T, F: Fn(usize) -> usize>(
    busy: bool,
    items: Seq<T>,
    count_fn: F,
    max_count: nat,
    outcome: Result<nat, StealError>,
    stolen_after: Seq<T>,
    items_after: Seq<T>,
) -> bool {
    match outcome {
        Ok(count) => {
            &&& !busy
            &&& count >= 1
            &&& stolen_count(count_fn, items.len(), max_count, count)
            &&& stolen_after == items.take(count as int)
            &&& items_after == items.skip(count as int)
        },
        Err(StealError::Busy) => busy,
        Err(StealError::Empty) => {
            &&& !busy
            &&& items.len() == 0 || stolen_count(count_fn, items.len(), max_count, 0)
        },
    }
}

/// The number of items that are stolen is the number that is asked for, as long as it
/// exceeds neither the number of available items nor the maximum; otherwise it is the
/// smallest of the three.
///
/// The number that is asked for is returned.
pub proof fn law_stolen_count<F: Fn(usize) -> usize>(
    count_fn: F,
    available: nat,
    max_count: nat,
    count: nat,
) -> (wanted: usize)
    requires
        stolen_count(count_fn, available, max_count, count),
    ensures
        count_fn.ensures((available as usize,), wanted),
        count <= wanted,
        count <= available,
        count <= max_count,
        count == wanted || count == available || count == max_count,
{
    choose|wanted: usize| #[trigger]
        count_fn.ensures((available as usize,), wanted) && count == (if wanted <= max_count
            && wanted <= available {
            wanted as nat
        } else if max_count <= available {
            max_count
        } else {
            available
        })
}

/// Booking takes the oldest items and neither loses any nor changes their order. It fails
/// if items are being stolen already, or else if there is nothing to be stolen.
pub proof fn law_booking<T, F: Fn(usize) -> usize>(
    busy: bool,
    items: Seq<T>,
    count_fn: F,
    max_count: nat,
    outcome: Result<nat, StealError>,
    stolen_after: Seq<T>,
    items_after: Seq<T>,
)
    requires
        booked(busy, items, count_fn, max_count, outcome, stolen_after, items_after),
    ensures
        outcome == Err::<nat, StealError>(StealError::Busy) <==> busy,
        outcome matches Ok(count) ==> {
            &&& stolen_after + items_after == items
            &&& stolen_after.len() == count
            &&& 1 <= count <= max_count
        },
        items.len() == 0 ==> outcome is Err,
{
    if let Ok(count) = outcome {
        let wanted = law_stolen_count(count_fn, items.len(), max_count, count);
        assert(items.take(count as int) + items.skip(count as int) =~= items);
    }
}

} // verus!
