//! A bounded queue of messages, with stamped slots in the manner of Dmitry
//! Vyukov's MPMC queue.
//!
//! A popped message is lent rather than given away: its slot only becomes
//! available to later messages once the borrow is released.

use vstd::arithmetic::div_mod::{
    lemma_add_mod_noop, lemma_fundamental_div_mod, lemma_fundamental_div_mod_converse,
    lemma_mod_bound, lemma_small_mod,
};
use vstd::arithmetic::mul::lemma_mul_is_commutative;
use vstd::arithmetic::power2::{lemma_pow2_adds, lemma_pow2_pos, lemma_pow2_unfold, pow2};
use vstd::prelude::*;

use crate::util::bits::{
    lemma_clear_mask, lemma_low_mask, lemma_set_mask, lemma_set_mask_again, lemma_single_bit,
    lemma_usize_modulus, max_capacity, next_power_of_two,
};
use crate::util::ring::lemma_distinct_indices;

verus! {

/// The content of a slot.
pub enum MessageBox<T> {
    /// A message waiting to be popped.
    Populated(T),
    /// Nothing: a message can be pushed.
    Vacated,
    /// Nothing yet: the message that was in the slot is still lent.
    Lent,
}

/// A queue slot with a stamp and possibly a message.
pub struct Slot<T> {
    stamp: usize,
    message: MessageBox<T>,
}

/// A message borrowed from the queue.
///
/// The borrowed message should be released as soon as possible because its
/// slot in the queue cannot be re-used until then.
pub struct MessageBorrow<T> {
    message: T,
    index: usize,
    stamp: usize,
    position: Ghost<nat>,
}

impl<T> MessageBorrow<T> {
    /// The borrowed message.
    pub closed spec fn message(self) -> T {
        self.message
    }

    /// The rank of the borrowed message among all messages ever popped.
    pub closed spec fn position(self) -> nat {
        self.position@
    }

    /// Returns the borrowed message.
    pub fn deref(&self) -> (message: &T)
        ensures
            *message == self.message(),
    {
        &self.message
    }
}

/// The layout shared by the enqueue position, the dequeue position and the
/// slot stamps, from the most to the least significant bit: turn count, flag
/// (1 bit), buffer index.
///
/// In the enqueue position, the flag signals that the queue has been closed.
/// In a stamp, it extends the mantissa of the index.
pub ghost struct Geometry {
    /// Number of slots.
    pub capacity: nat,
    /// Weight of the flag, as an exponent of two.
    pub flag_bit: nat,
}

impl Geometry {
    spec fn wf(self) -> bool {
        &&& 1 <= self.capacity <= pow2(self.flag_bit)
        &&& self.flag_bit + 2 <= usize::BITS
    }

    /// Weight of the flag.
    spec fn flag(self) -> int {
        pow2(self.flag_bit) as int
    }

    /// Weight of one turn.
    spec fn turn(self) -> int {
        2 * self.flag()
    }

    /// Number of turns before the turn count wraps around.
    spec fn turn_count(self) -> int {
        pow2((usize::BITS - self.flag_bit - 1) as nat) as int
    }

    /// The position of the message of rank `n`, counting from the first
    /// message ever pushed.
    spec fn position(self, n: int) -> int {
        ((n / (self.capacity as int)) % self.turn_count()) * self.turn() + n % (
        self.capacity as int)
    }

    /// The slot of the message of rank `n`.
    spec fn index(self, n: int) -> int {
        n % (self.capacity as int)
    }

    proof fn lemma_scale(self)
        requires
            self.wf(),
        ensures
            self.turn_count() * self.turn() == usize::MAX + 1,
            self.turn_count() >= 2,
            self.flag() >= 1,
            2 * self.turn() <= usize::MAX + 1,
    {
        let k = self.flag_bit;
        lemma_usize_modulus();
        lemma_pow2_pos(k);
        lemma_pow2_unfold(k + 1);
        lemma_pow2_adds((usize::BITS - k - 1) as nat, k + 1);
        lemma_pow2_unfold((usize::BITS - k - 1) as nat);
        lemma_pow2_pos((usize::BITS - k - 2) as nat);
        let t = self.turn();
        let c = self.turn_count();
        assert(2 * t <= c * t) by (nonlinear_arith)
            requires
                c >= 2,
                t >= 0,
        ;
    }

    /// A position lies within the range of a `usize`, and so does the position
    /// that follows it within the same turn.
    proof fn lemma_range(self, n: int)
        requires
            self.wf(),
            n >= 0,
        ensures
            0 <= self.index(n) < self.capacity,
            0 <= self.position(n),
            self.position(n) + self.turn() - self.index(n) <= usize::MAX + 1,
            self.position(n) + self.flag() <= usize::MAX,
    {
        self.lemma_scale();
        let c = self.turn_count();
        let t = self.turn();
        let turn = (n / (self.capacity as int)) % c;
        lemma_mod_bound(n / (self.capacity as int), c);
        lemma_mod_bound(n, self.capacity as int);
        assert(0 <= turn * t && turn * t + t <= c * t) by (nonlinear_arith)
            requires
                0 <= turn < c,
                t >= 0,
        ;
    }

    /// The remainder of a position by a turn is its index.
    proof fn lemma_index(self, n: int)
        requires
            self.wf(),
            n >= 0,
        ensures
            self.position(n) % self.turn() == self.index(n),
            self.position(n) % self.flag() == self.index(n),
            (self.position(n) + 1) % self.turn() == self.index(n) + 1,
    {
        self.lemma_scale();
        self.lemma_range(n);
        let c = self.turn_count();
        let t = self.turn();
        let f = self.flag();
        let q = (n / (self.capacity as int)) % c;
        let r = self.index(n);
        lemma_fundamental_div_mod_converse(self.position(n), t, q, r);
        lemma_fundamental_div_mod_converse(self.position(n) + 1, t, q, r + 1);
        assert(q * t == (2 * q) * f) by (nonlinear_arith)
            requires
                t == 2 * f,
        ;
        lemma_fundamental_div_mod_converse(self.position(n), f, 2 * q, r);
    }

    /// The message that comes a whole buffer later has the same index, one
    /// turn later.
    proof fn lemma_next_turn(self, n: int)
        requires
            self.wf(),
            n >= 0,
        ensures
            self.index(n + self.capacity) == self.index(n),
            self.position(n + self.capacity) == (self.position(n) + self.turn()) % (usize::MAX
                + 1),
            self.position(n + self.capacity) != self.position(n) + 1,
            self.position(n + self.capacity) != self.position(n),
    {
        self.lemma_scale();
        self.lemma_range(n);
        self.lemma_range(n + self.capacity);
        let cap = self.capacity as int;
        let c = self.turn_count();
        let t = self.turn();
        lemma_fundamental_div_mod(n, cap);
        let q = n / cap;
        assert(n + cap == cap * (q + 1) + n % cap) by (nonlinear_arith)
            requires
                n == cap * q + n % cap,
        ;
        lemma_mul_is_commutative(cap, q + 1);
        lemma_fundamental_div_mod_converse(n + cap, cap, q + 1, n % cap);
        lemma_mod_bound(q, c);
        let a = q % c;
        lemma_add_mod_noop(q, 1, c);
        lemma_small_mod(1, c as nat);
        assert((q + 1) % c == (a + 1) % c);
        let m = usize::MAX + 1;
        if a + 1 < c {
            lemma_small_mod((a + 1) as nat, c as nat);
            assert((a + 1) * t == a * t + t) by (nonlinear_arith);
            assert((a + 1) * t + t <= c * t) by (nonlinear_arith)
                requires
                    a + 2 <= c,
                    t >= 0,
            {
                assert((a + 2) * t <= c * t) by (nonlinear_arith)
                    requires
                        a + 2 <= c,
                        t >= 0,
                ;
            }
            lemma_small_mod((self.position(n) + t) as nat, m as nat);
        } else {
            assert(a + 1 == c);
            lemma_fundamental_div_mod_converse(c, c, 1, 0);
            assert(a * t + t == m) by (nonlinear_arith)
                requires
                    (a + 1) * t == m,
            ;
            lemma_fundamental_div_mod_converse(self.position(n) + t, m, 1, n % cap);
            assert(0 * t == 0);
            assert(a * t >= t) by (nonlinear_arith)
                requires
                    a >= 1,
                    t >= 0,
            ;
        }
    }

    /// The message that comes next is one index further or begins a new turn.
    proof fn lemma_next(self, n: int)
        requires
            self.wf(),
            n >= 0,
        ensures
            self.index(n) + 1 < self.capacity ==> self.position(n + 1) == self.position(n) + 1,
            self.index(n) + 1 == self.capacity ==> self.position(n + 1) == (self.position(n)
                - self.index(n) + self.turn()) % (usize::MAX + 1),
    {
        let cap = self.capacity as int;
        lemma_fundamental_div_mod(n, cap);
        lemma_mod_bound(n, cap);
        let q = n / cap;
        lemma_mul_is_commutative(cap, q);
        if self.index(n) + 1 < cap {
            lemma_fundamental_div_mod_converse(n + 1, cap, q, n % cap + 1);
        } else {
            // The message of rank `n + 1` has the slot of the first message of
            // the turn of `n`, one turn later.
            let first = n - n % cap;
            lemma_fundamental_div_mod_converse(first, cap, q, 0);
            assert(q >= 0) by (nonlinear_arith)
                requires
                    n == q * cap + n % cap,
                    n >= 0,
                    0 <= n % cap < cap,
            ;
            assert(q * cap >= 0) by (nonlinear_arith)
                requires
                    q >= 0,
                    cap >= 1,
            ;
            self.lemma_next_turn(first);
            assert(self.position(first) == self.position(n) - self.index(n));
            assert(first + cap == n + 1);
        }
    }

    /// The flag is cleared in a position and can be set without altering the
    /// turn count and the index.
    proof fn lemma_flag(self, n: int)
        requires
            self.wf(),
            n >= 0,
        ensures
            (self.position(n) + self.flag()) % self.turn() == self.index(n) + self.flag(),
            (self.position(n) + self.flag()) % self.flag() == self.index(n),
    {
        self.lemma_scale();
        self.lemma_range(n);
        let t = self.turn();
        let f = self.flag();
        let q = (n / (self.capacity as int)) % self.turn_count();
        let r = self.index(n);
        lemma_fundamental_div_mod_converse(self.position(n) + f, t, q, r + f);
        assert(q * t + f == (2 * q + 1) * f) by (nonlinear_arith)
            requires
                t == 2 * f,
        ;
        lemma_fundamental_div_mod_converse(self.position(n) + f, f, 2 * q + 1, r);
    }

    /// Two ranks at most a whole buffer apart are on the same turn or on
    /// consecutive turns, and the turn counts tell which.
    proof fn lemma_turns(self, a: int, b: int)
        requires
            self.wf(),
            0 <= a <= b <= a + self.capacity,
        ensures
            (self.position(a) - self.index(a) == self.position(b) - self.index(b)) ==> b - a
                == self.index(b) - self.index(a),
            (self.position(a) - self.index(a) != self.position(b) - self.index(b)) ==> b - a
                == self.index(b) + self.capacity - self.index(a),
    {
        self.lemma_scale();
        let cap = self.capacity as int;
        let c = self.turn_count();
        let t = self.turn();
        let qa = a / cap;
        let qb = b / cap;
        lemma_fundamental_div_mod(a, cap);
        lemma_fundamental_div_mod(b, cap);
        lemma_mod_bound(a, cap);
        lemma_mod_bound(b, cap);
        assert(qa >= 0) by (nonlinear_arith)
            requires
                a == cap * qa + a % cap,
                a >= 0,
                0 <= a % cap < cap,
        ;
        assert(qa == qb || qb == qa + 1) by (nonlinear_arith)
            requires
                a == cap * qa + a % cap,
                b == cap * qb + b % cap,
                0 <= a % cap < cap,
                0 <= b % cap < cap,
                a <= b <= a + cap,
        ;
        assert(cap * (qa + 1) == cap * qa + cap) by (nonlinear_arith);
        if qb == qa + 1 {
            lemma_mod_bound(qa, c);
            lemma_mod_bound(qb, c);
            assert(qa % c != qb % c) by {
                lemma_add_mod_noop(qa, 1, c);
                lemma_small_mod(1, c as nat);
                if qa % c + 1 < c {
                    lemma_small_mod((qa % c + 1) as nat, c as nat);
                } else {
                    lemma_fundamental_div_mod_converse(c, c, 1, 0);
                }
            }
            assert((qa % c) * t != (qb % c) * t) by (nonlinear_arith)
                requires
                    qa % c != qb % c,
                    t >= 2,
            ;
        }
    }

    /// Distinct ranks less than a whole buffer apart have distinct slots.
    proof fn lemma_distinct(self, a: int, b: int)
        requires
            self.wf(),
            0 <= a < b < a + self.capacity,
        ensures
            self.index(a) != self.index(b),
    {
        lemma_distinct_indices(a, b, self.capacity as int);
    }
}

/// A bounded queue that stores its messages in stamped slots.
pub struct Queue<T> {
    /// Position of the slot to which the next message will be written.
    enqueue_pos: usize,
    /// Position of the slot from which the next message will be read.
    dequeue_pos: usize,
    /// Buffer holding the messages and their stamps.
    buffer: Vec<Slot<T>>,
    /// Bit mask covering both the buffer index and the 1-bit flag.
    right_mask: usize,
    /// Bit mask for the 1-bit flag, used as closed-channel flag in the enqueue
    /// position.
    closed_channel_mask: usize,
    /// Weight of the flag, as an exponent of two.
    flag_bit: Ghost<nat>,
    /// Whether the queue has been closed.
    closed: Ghost<bool>,
    /// Number of messages ever pushed.
    pushed: Ghost<nat>,
    /// Number of messages ever popped.
    popped: Ghost<nat>,
}

/// Error occurring when pushing into a queue is unsuccessful.
pub enum PushError<T> {
    /// The queue is full.
    Full(T),
    /// The queue has been closed.
    Closed,
}

/// Error occurring when popping from a queue is unsuccessful.
#[derive(Clone, Copy, Debug, PartialEq, Eq, Structural)]
pub enum PopError {
    /// The queue is empty.
    Empty,
    /// The queue has been closed and is empty.
    Closed,
}

impl<T> Queue<T> {
    spec fn geometry(self) -> Geometry {
        Geometry { capacity: self.buffer@.len(), flag_bit: self.flag_bit@ }
    }

    /// What the slot of the message of rank `n` holds, for the ranks from the
    /// next message to be popped up to a whole buffer later.
    spec fn slot_ok(self, n: int) -> bool {
        let slot = self.buffer@[self.geometry().index(n)];
        let position = self.geometry().position(n);
        if n < self.pushed@ {
            slot.message is Populated && slot.stamp == position + 1
        } else {
            match slot.message {
                MessageBox::Populated(_) => false,
                MessageBox::Vacated => slot.stamp == position,
                MessageBox::Lent => n >= self.geometry().capacity && slot.stamp
                    == self.geometry().position(n - self.geometry().capacity) + 1,
            }
        }
    }

    /// The invariant of the queue.
    pub closed spec fn wf(self) -> bool {
        let g = self.geometry();
        &&& g.wf()
        &&& self.closed_channel_mask == g.flag()
        &&& self.right_mask == g.turn() - 1
        &&& self.popped@ <= self.pushed@ <= self.popped@ + g.capacity
        &&& self.dequeue_pos == g.position(self.popped@ as int)
        &&& self.enqueue_pos == g.position(self.pushed@ as int) + (if self.closed@ {
            g.flag()
        } else {
            0
        })
        &&& forall|n: int|
            self.popped@ <= n < self.popped@ + g.capacity ==> #[trigger] self.slot_ok(n)
    }

    /// The number of messages that the queue can hold.
    pub closed spec fn capacity(self) -> nat {
        self.buffer@.len()
    }

    /// Whether the queue has been closed.
    pub closed spec fn closed(self) -> bool {
        self.closed@
    }

    /// The number of messages ever popped.
    pub closed spec fn popped(self) -> nat {
        self.popped@
    }

    /// The messages waiting to be popped, oldest first.
    pub closed spec fn messages(self) -> Seq<T> {
        Seq::new(
            (self.pushed@ - self.popped@) as nat,
            |i: int| self.buffer@[self.geometry().index(self.popped@ + i)].message->Populated_0,
        )
    }

    /// Whether the slot of the message that comes a whole buffer after the
    /// popped message of rank `n` is still held by that popped message.
    pub closed spec fn lent(self, n: nat) -> bool {
        &&& n < self.popped@ <= n + self.capacity()
        &&& self.buffer@[self.geometry().index((n + self.capacity()) as int)].message is Lent
    }

    /// Whether a borrow is an outstanding borrow from this queue.
    pub closed spec fn lends(self, borrow: MessageBorrow<T>) -> bool {
        &&& self.lent(borrow.position@)
        &&& borrow.index == self.geometry().index(borrow.position@ as int)
        &&& borrow.stamp == self.geometry().position(
            (borrow.position@ + self.capacity()) as int,
        )
    }

    /// A message is lent as long as its borrow is outstanding.
    pub proof fn lemma_lends(self, borrow: MessageBorrow<T>)
        requires
            self.lends(borrow),
        ensures
            self.lent(borrow.position()),
    {
    }

    /// Whether no message is currently lent.
    pub open spec fn nothing_lent(self) -> bool {
        forall|n: nat| !#[trigger] self.lent(n)
    }

    /// Whether the slot for the next message is neither taken by a waiting
    /// message nor by a message that is still lent.
    pub open spec fn has_room(self) -> bool {
        &&& self.messages().len() < self.capacity()
        &&& self.popped() + self.messages().len() >= self.capacity() ==> !self.lent(
            (self.popped() + self.messages().len() - self.capacity()) as nat,
        )
    }

    /// Creates a new queue.
    ///
    /// The capacity must be 1 or greater. It is bounded by the largest
    /// allocation.
    pub fn new(capacity: usize) -> (queue: Self)
        requires
            1 <= capacity <= max_capacity(),
        ensures
            queue.wf(),
            queue.capacity() == capacity,
            queue.messages() == Seq::<T>::empty(),
            queue.popped() == 0,
            queue.nothing_lent(),
            !queue.closed(),
    {
        // Allocate a buffer initialized with linearly increasing stamps.
        let mut buffer: Vec<Slot<T>> = Vec::new();
        let mut i: usize = 0;
        while i < capacity
            invariant
                i <= capacity,
                buffer@.len() == i,
                forall|j: int|
                    0 <= j < i ==> (#[trigger] buffer@[j]).stamp == j
                        && buffer@[j].message is Vacated,
            decreases capacity - i,
        {
            buffer.push(Slot { stamp: i, message: MessageBox::Vacated });
            i += 1;
        }
        let (closed_channel_mask, Ghost(flag_bit)) = next_power_of_two(capacity);
        let ghost g = Geometry { capacity: capacity as nat, flag_bit };
        proof {
            g.lemma_scale();
            g.lemma_range(0);
            assert forall|n: int| 0 <= n < capacity implies g.position(n) == n && g.index(n)
                == n by {
                lemma_small_mod(n as nat, capacity as nat);
                lemma_fundamental_div_mod_converse(n, capacity as int, 0, n);
                lemma_small_mod(0, g.turn_count() as nat);
            }
        }
        let right_mask: usize = 2 * closed_channel_mask - 1;
        let queue = Queue {
            enqueue_pos: 0,
            dequeue_pos: 0,
            buffer,
            right_mask,
            closed_channel_mask,
            flag_bit: Ghost(flag_bit),
            closed: Ghost(false),
            pushed: Ghost(0),
            popped: Ghost(0),
        };
        assert(queue.messages() =~= Seq::<T>::empty());
        queue
    }

    /// Attempts to push a message in the queue.
    ///
    /// The push is refused if the queue has been closed, and otherwise if it
    /// is full, in which case the message is handed back.
    pub fn push(&mut self, message: T) -> (r: Result<(), PushError<T>>)
        requires
            old(self).wf(),
        ensures
            final(self).wf(),
            final(self).capacity() == old(self).capacity(),
            final(self).closed() == old(self).closed(),
            final(self).popped() == old(self).popped(),
            forall|n: nat| #[trigger] final(self).lent(n) == old(self).lent(n),
            forall|b: MessageBorrow<T>| #[trigger] final(self).lends(b) == old(self).lends(b),
            r == (if old(self).closed() {
                Err(PushError::Closed)
            } else if !old(self).has_room() {
                Err(PushError::Full(message))
            } else {
                Ok(())
            }),
            final(self).messages() == (if r is Ok {
                old(self).messages().push(message)
            } else {
                old(self).messages()
            }),
    {
        let ghost g = self.geometry();
        let ghost n = self.pushed@ as int;
        proof {
            g.lemma_scale();
            g.lemma_range(n);
            g.lemma_index(n);
            g.lemma_flag(n);
            lemma_pow2_unfold(g.flag_bit + 1);
            lemma_single_bit(self.enqueue_pos, self.closed_channel_mask, g.flag_bit);
            lemma_low_mask(self.enqueue_pos, self.right_mask, g.flag_bit + 1);
        }
        if self.enqueue_pos & self.closed_channel_mask != 0 {
            return Err(PushError::Closed);
        }
        let index: usize = self.enqueue_pos & self.right_mask;
        let stamp: usize = self.buffer[index].stamp;
        proof {
            if n < self.popped@ + g.capacity {
                assert(self.slot_ok(n));
            } else {
                assert(self.slot_ok(n - g.capacity));
            }
            if n >= g.capacity {
                g.lemma_next_turn(n - g.capacity);
            }
        }
        if stamp != self.enqueue_pos {
            // The stamp lags behind the enqueue position: the message it
            // belongs to has not been popped or is still lent.
            return Err(PushError::Full(message));
        }
        let next_pos: usize = self.next_queue_pos(self.enqueue_pos, Ghost(n as nat));
        self.enqueue_pos = next_pos;
        self.buffer.set(
            index,
            Slot { stamp: stamp.wrapping_add(1), message: MessageBox::Populated(message) },
        );
        self.pushed = Ghost(self.pushed@ + 1);
        proof {
            let popped = self.popped@ as int;
            assert forall|m: int| popped <= m < popped + g.capacity implies #[trigger] self.slot_ok(
                m,
            ) by {
                assert(old(self).slot_ok(m));
                if m < n {
                    g.lemma_distinct(m, n);
                } else if m > n {
                    g.lemma_distinct(n, m);
                }
                lemma_mod_bound(m, g.capacity as int);
            }
            assert forall|m: int| popped <= m < popped + g.capacity && m != n implies g.index(m)
                != g.index(n) by {
                if m < n {
                    g.lemma_distinct(m, n);
                } else {
                    g.lemma_distinct(n, m);
                }
            }
            assert forall|m: nat| #[trigger] self.lent(m) == old(self).lent(m) by {
                if m < popped && popped <= m + g.capacity {
                    lemma_mod_bound((m + g.capacity) as int, g.capacity as int);
                }
            }
            assert(self.messages() =~= old(self).messages().push(message)) by {
                assert forall|i: int| 0 <= i < n - popped implies self.messages()[i] == old(self).messages()[i] by {
                    lemma_mod_bound(popped + i, g.capacity as int);
                }
            }
        }
        Ok(())
    }

    /// Increments a queue position, incrementing the turn count as well if the
    /// index wraps to 0.
    ///
    /// The flag of the position must be cleared.
    fn next_queue_pos(&self, queue_pos: usize, Ghost(n): Ghost<nat>) -> (pos: usize)
        requires
            self.geometry().wf(),
            self.right_mask == self.geometry().turn() - 1,
            queue_pos == self.geometry().position(n as int),
        ensures
            pos == self.geometry().position(n as int + 1),
    {
        let ghost g = self.geometry();
        proof {
            g.lemma_scale();
            g.lemma_range(n as int);
            g.lemma_index(n as int);
            g.lemma_next(n as int);
            lemma_pow2_unfold(g.flag_bit + 1);
        }
        let new_queue_pos: usize = queue_pos + 1;
        let new_index: usize = new_queue_pos & self.right_mask;
        proof {
            lemma_low_mask(new_queue_pos, self.right_mask, g.flag_bit + 1);
            lemma_low_mask(queue_pos, self.right_mask, g.flag_bit + 1);
            lemma_clear_mask(queue_pos, self.right_mask);
        }
        if new_index < self.buffer.len() {
            new_queue_pos
        } else {
            let turn_increment: usize = self.right_mask + 1;
            let turn: usize = queue_pos & !self.right_mask;
            proof {
                let sum = turn + turn_increment;
                let m = usize::MAX + 1;
                if sum < m {
                    lemma_small_mod(sum as nat, m as nat);
                } else {
                    lemma_fundamental_div_mod_converse(sum, m, 1, sum - m);
                }
            }
            turn.wrapping_add(turn_increment)
        }
    }

    /// Attempts to pop a message from the queue.
    ///
    /// The oldest message is lent, if there is one. The slot of the next
    /// message to be popped must not itself be held by an earlier borrow.
    pub fn pop(&mut self) -> (r: Result<MessageBorrow<T>, PopError>)
        requires
            old(self).wf(),
            old(self).popped() >= old(self).capacity() ==> !old(self).lent(
                (old(self).popped() - old(self).capacity()) as nat,
            ),
        ensures
            final(self).wf(),
            final(self).capacity() == old(self).capacity(),
            final(self).closed() == old(self).closed(),
            match r {
                Ok(borrow) => {
                    &&& old(self).messages().len() > 0
                    &&& borrow.message() == old(self).messages()[0]
                    &&& borrow.position() == old(self).popped()
                    &&& final(self).messages() == old(self).messages().drop_first()
                    &&& final(self).popped() == old(self).popped() + 1
                    &&& final(self).lends(borrow)
                    &&& forall|n: nat| #[trigger]
                        final(self).lent(n) == (old(self).lent(n) || n == old(self).popped())
                    &&& forall|b: MessageBorrow<T>|
                        old(self).lends(b) ==> #[trigger] final(self).lends(b)
                },
                Err(error) => {
                    &&& old(self).messages().len() == 0
                    &&& error == (if old(self).closed() {
                        PopError::Closed
                    } else {
                        PopError::Empty
                    })
                    &&& *final(self) == *old(self)
                },
            },
    {
        let ghost g = self.geometry();
        let ghost n = self.popped@ as int;
        proof {
            g.lemma_scale();
            g.lemma_range(n);
            g.lemma_index(n);
            g.lemma_flag(n);
            lemma_pow2_unfold(g.flag_bit + 1);
            lemma_low_mask(self.dequeue_pos, self.right_mask, g.flag_bit + 1);
            assert(self.slot_ok(n));
            if n >= g.capacity {
                g.lemma_next_turn(n - g.capacity);
            }
        }
        let index: usize = self.dequeue_pos & self.right_mask;
        let stamp: usize = self.buffer[index].stamp;
        if stamp != self.dequeue_pos {
            // The stamp is ahead of the dequeue position by 1 increment: the
            // message can be popped.
            let next_pos: usize = self.next_queue_pos(self.dequeue_pos, Ghost(n as nat));
            self.dequeue_pos = next_pos;
            let mut slot = Slot { stamp, message: MessageBox::Lent };
            std::mem::swap(&mut self.buffer[index], &mut slot);
            self.popped = Ghost(self.popped@ + 1);
            let new_stamp: usize = stamp.wrapping_add(self.right_mask);
            proof {
                g.lemma_next_turn(n);
                let sum = stamp + self.right_mask;
                let m = usize::MAX + 1;
                if sum < m {
                    lemma_small_mod(sum as nat, m as nat);
                } else {
                    lemma_fundamental_div_mod_converse(sum, m, 1, sum - m);
                }
                assert forall|m: int| n < m < n + g.capacity implies g.index(m) != g.index(
                    n,
                ) by {
                    g.lemma_distinct(n, m);
                }
                assert forall|m: int|
                    n + 1 <= m < n + 1 + g.capacity implies #[trigger] self.slot_ok(m) by {
                    lemma_mod_bound(m, g.capacity as int);
                    if m < n + g.capacity {
                        assert(old(self).slot_ok(m));
                    }
                }
                assert forall|m: nat| #[trigger]
                    self.lent(m) == (old(self).lent(m) || m == old(self).popped()) by {
                    lemma_mod_bound((m + g.capacity) as int, g.capacity as int);
                    if m < n && n <= m + g.capacity {
                        assert(self.popped@ <= m + g.capacity || m == n - g.capacity);
                    }
                }
                assert forall|b: MessageBorrow<T>| old(self).lends(b) implies #[trigger] self.lends(
                    b,
                ) by {
                    assert(self.lent(b.position@) == (old(self).lent(b.position@) || b.position@
                        == old(self).popped()));
                }
                assert(self.messages() =~= old(self).messages().drop_first()) by {
                    assert forall|i: int|
                        0 <= i < self.pushed@ - n - 1 implies self.messages()[i] == old(self).messages().drop_first()[i] by {
                        lemma_mod_bound(n + 1 + i, g.capacity as int);
                    }
                }
            }
            match slot.message {
                MessageBox::Populated(message) => {
                    let borrow = MessageBorrow {
                        message,
                        index,
                        stamp: new_stamp,
                        position: Ghost(n as nat),
                    };
                    assert(self.lent(n as nat));
                    Ok(borrow)
                },
                _ => {
                    assert(false);
                    Err(PopError::Empty)
                },
            }
        } else {
            proof {
                lemma_single_bit(self.dequeue_pos, self.closed_channel_mask, g.flag_bit);
                lemma_set_mask(self.dequeue_pos, self.closed_channel_mask);
            }
            if self.enqueue_pos == self.dequeue_pos | self.closed_channel_mask {
                Err(PopError::Closed)
            } else {
                Err(PopError::Empty)
            }
        }
    }

    /// Releases a borrowed message, which makes its slot available again.
    pub fn release(&mut self, borrow: MessageBorrow<T>) -> (message: T)
        requires
            old(self).wf(),
            old(self).lends(borrow),
        ensures
            final(self).wf(),
            message == borrow.message(),
            final(self).capacity() == old(self).capacity(),
            final(self).closed() == old(self).closed(),
            final(self).popped() == old(self).popped(),
            final(self).messages() == old(self).messages(),
            forall|n: nat| #[trigger]
                final(self).lent(n) == (old(self).lent(n) && n != borrow.position()),
            forall|b: MessageBorrow<T>|
                old(self).lends(b) && b.position() != borrow.position() ==> #[trigger] final(self).lends(b),
    {
        let ghost g = self.geometry();
        let ghost n = borrow.position@ as int;
        let ghost popped = self.popped@ as int;
        proof {
            g.lemma_next_turn(n);
            lemma_mod_bound(n, g.capacity as int);
            assert(self.slot_ok(n + g.capacity));
        }
        self.buffer.set(
            borrow.index,
            Slot { stamp: borrow.stamp, message: MessageBox::Vacated },
        );
        proof {
            assert forall|m: int|
                popped <= m < popped + g.capacity && m != n + g.capacity implies g.index(m)
                != g.index(n) by {
                if m < n + g.capacity {
                    g.lemma_distinct(m, n + g.capacity);
                } else {
                    g.lemma_distinct(n + g.capacity, m);
                }
            }
            assert forall|m: int|
                popped <= m < popped + g.capacity implies #[trigger] self.slot_ok(m) by {
                lemma_mod_bound(m, g.capacity as int);
                assert(old(self).slot_ok(m));
            }
            assert forall|m: nat| #[trigger]
                self.lent(m) == (old(self).lent(m) && m != borrow.position()) by {
                lemma_mod_bound((m + g.capacity) as int, g.capacity as int);
            }
            assert forall|b: MessageBorrow<T>|
                old(self).lends(b) && b.position() != borrow.position() implies #[trigger] self.lends(
                b,
            ) by {
                assert(self.lent(b.position@) == (old(self).lent(b.position@) && b.position@
                    != borrow.position()));
            }
            assert(self.messages() =~= old(self).messages()) by {
                assert forall|i: int| 0 <= i < self.pushed@ - popped implies self.messages()[i]
                    == old(self).messages()[i] by {
                    lemma_mod_bound(popped + i, g.capacity as int);
                    assert(old(self).slot_ok(popped + i));
                    assert(old(self).slot_ok(n + g.capacity));
                }
            }
        }
        borrow.message
    }

    /// Closes the queue.
    pub fn close(&mut self)
        requires
            old(self).wf(),
        ensures
            final(self).wf(),
            final(self).closed(),
            final(self).capacity() == old(self).capacity(),
            final(self).popped() == old(self).popped(),
            final(self).messages() == old(self).messages(),
            forall|n: nat| #[trigger] final(self).lent(n) == old(self).lent(n),
            forall|b: MessageBorrow<T>| #[trigger] final(self).lends(b) == old(self).lends(b),
    {
        let ghost g = self.geometry();
        let ghost n = self.pushed@ as int;
        proof {
            g.lemma_scale();
            g.lemma_range(n);
            g.lemma_index(n);
            g.lemma_flag(n);
            let open_pos = g.position(n) as usize;
            lemma_single_bit(open_pos, self.closed_channel_mask, g.flag_bit);
            lemma_set_mask(open_pos, self.closed_channel_mask);
            lemma_set_mask_again(open_pos, self.closed_channel_mask);
        }
        self.enqueue_pos = self.enqueue_pos | self.closed_channel_mask;
        self.closed = Ghost(true);
        proof {
            assert forall|m: int|
                self.popped@ <= m < self.popped@ + g.capacity implies #[trigger] self.slot_ok(
                m,
            ) by {
                assert(old(self).slot_ok(m));
            }
            assert(self.messages() =~= old(self).messages());
        }
    }

    /// Checks if the queue has been closed.
    ///
    /// Note that even if the queue is closed, some messages may still be
    /// present in the queue so further calls to `pop` may still succeed.
    pub fn is_closed(&self) -> (r: bool)
        requires
            self.wf(),
        ensures
            r == self.closed(),
    {
        proof {
            let g = self.geometry();
            let n = self.pushed@ as int;
            g.lemma_scale();
            g.lemma_range(n);
            g.lemma_index(n);
            g.lemma_flag(n);
            lemma_single_bit(self.enqueue_pos, self.closed_channel_mask, g.flag_bit);
        }
        self.enqueue_pos & self.closed_channel_mask != 0
    }

    /// Returns the number of messages waiting in the queue.
    pub fn len(&self) -> (len: usize)
        requires
            self.wf(),
        ensures
            len == self.messages().len(),
    {
        let ghost g = self.geometry();
        let ghost n = self.pushed@ as int;
        let ghost d = self.popped@ as int;
        proof {
            g.lemma_scale();
            g.lemma_range(n);
            g.lemma_index(n);
            g.lemma_flag(n);
            g.lemma_range(d);
            g.lemma_index(d);
            lemma_pow2_unfold(g.flag_bit + 1);
        }
        let right_mask: usize = self.right_mask;
        let index_mask: usize = right_mask >> 1;
        assert(right_mask >> 1 == right_mask / 2) by (bit_vector);
        let enqueue_idx: usize = self.enqueue_pos & index_mask;
        let dequeue_idx: usize = self.dequeue_pos & index_mask;
        proof {
            lemma_low_mask(self.enqueue_pos, index_mask, g.flag_bit);
            lemma_low_mask(self.dequeue_pos, index_mask, g.flag_bit);
            lemma_low_mask(self.enqueue_pos, self.right_mask, g.flag_bit + 1);
            lemma_low_mask(self.dequeue_pos, self.right_mask, g.flag_bit + 1);
            lemma_clear_mask(self.enqueue_pos, self.right_mask);
            lemma_clear_mask(self.dequeue_pos, self.right_mask);
            g.lemma_turns(d, n);
        }
        // Establish whether the turn counts of the enqueue and dequeue
        // positions differ. If yes, it means the enqueue position has wrapped
        // around one more time so the difference between indices must be
        // increased by the buffer capacity.
        let carry_flag: bool = (self.enqueue_pos & !self.right_mask) != (self.dequeue_pos
            & !self.right_mask);
        if carry_flag {
            enqueue_idx + self.buffer.len() - dequeue_idx
        } else {
            enqueue_idx - dequeue_idx
        }
    }
}

/// What a call on a queue does to the messages that wait in it.
pub ghost enum Transfer<T> {
    /// A successful push.
    Push(T),
    /// A successful pop.
    Pop(T),
    /// A refused push, a failed pop, a release or a closure.
    Idle,
}

impl<T> Queue<T> {
    /// Whether a call that ends with `after` has the given effect on the
    /// messages of `before`.
    pub open spec fn transfers(before: Self, transfer: Transfer<T>, after: Self) -> bool {
        match transfer {
            Transfer::Push(message) => after.messages() == before.messages().push(message),
            Transfer::Pop(message) => {
                &&& before.messages().len() > 0
                &&& message == before.messages()[0]
                &&& after.messages() == before.messages().drop_first()
            },
            Transfer::Idle => after.messages() == before.messages(),
        }
    }

    /// Whether a queue goes through a succession of states under a succession
    /// of calls.
    pub open spec fn history(states: Seq<Self>, transfers: Seq<Transfer<T>>) -> bool {
        &&& states.len() == transfers.len() + 1
        &&& forall|i: int|
            0 <= i < transfers.len() ==> Self::transfers(
                states[i],
                #[trigger] transfers[i],
                states[i + 1],
            )
    }

    /// The messages pushed by a succession of calls, in order.
    pub open spec fn pushed_by(transfers: Seq<Transfer<T>>) -> Seq<T>
        decreases transfers.len(),
    {
        if transfers.len() == 0 {
            Seq::empty()
        } else {
            let earlier = Self::pushed_by(transfers.drop_last());
            match transfers.last() {
                Transfer::Push(message) => earlier.push(message),
                _ => earlier,
            }
        }
    }

    /// The messages popped by a succession of calls, in order.
    pub open spec fn popped_by(transfers: Seq<Transfer<T>>) -> Seq<T>
        decreases transfers.len(),
    {
        if transfers.len() == 0 {
            Seq::empty()
        } else {
            let earlier = Self::popped_by(transfers.drop_last());
            match transfers.last() {
                Transfer::Pop(message) => earlier.push(message),
                _ => earlier,
            }
        }
    }

    /// Messages come out in the order in which they went in, each exactly
    /// once: whatever the succession of calls, the messages popped so far
    /// followed by those that still wait are the messages that waited at first
    /// followed by those pushed since.
    pub proof fn law_first_in_first_out(states: Seq<Self>, transfers: Seq<Transfer<T>>)
        requires
            Self::history(states, transfers),
        ensures
            Self::popped_by(transfers) + states.last().messages() == states[0].messages()
                + Self::pushed_by(transfers),
        decreases transfers.len(),
    {
        if transfers.len() == 0 {
            assert(Self::popped_by(transfers) + states.last().messages() =~= states[0].messages()
                + Self::pushed_by(transfers));
        } else {
            let last = transfers.len() - 1;
            let earlier = transfers.drop_last();
            let before = states.drop_last();
            assert forall|i: int| 0 <= i < earlier.len() implies Self::transfers(
                before[i],
                #[trigger] earlier[i],
                before[i + 1],
            ) by {
                assert(earlier[i] == transfers[i]);
            }
            Self::law_first_in_first_out(before, earlier);
            assert(Self::transfers(states[last], transfers[last], states[last + 1]));
            let waiting = before.last().messages();
            assert(before.last() == states[last]);
            match transfers.last() {
                Transfer::Pop(message) => {
                    assert(waiting =~= seq![message] + waiting.drop_first());
                    assert(Self::popped_by(transfers) + states.last().messages()
                        =~= Self::popped_by(earlier) + waiting);
                },
                Transfer::Push(message) => {
                    assert(Self::popped_by(transfers) + states.last().messages() =~= (
                    Self::popped_by(earlier) + waiting).push(message));
                    assert(states[0].messages() + Self::pushed_by(transfers) =~= (
                    states[0].messages() + Self::pushed_by(earlier)).push(message));
                },
                Transfer::Idle => {},
            }
        }
    }

    /// A message that was pushed has its place among all pushed messages.
    proof fn lemma_place(transfers: Seq<Transfer<T>>, i: int)
        requires
            0 <= i < transfers.len(),
            transfers[i] is Push,
        ensures
            Self::pushed_by(transfers.take(i)).len() < Self::pushed_by(transfers).len(),
            Self::pushed_by(transfers)[Self::pushed_by(transfers.take(i)).len() as int]
                == transfers[i]->Push_0,
            forall|j: int|
                i < j <= transfers.len() ==> Self::pushed_by(transfers.take(i)).len()
                    < Self::pushed_by(#[trigger] transfers.take(j)).len(),
        decreases transfers.len(),
    {
        let earlier = transfers.drop_last();
        assert(transfers.take(transfers.len() as int) =~= transfers);
        if i == transfers.len() - 1 {
            assert(transfers.take(i) =~= earlier);
        } else {
            Self::lemma_place(earlier, i);
            assert(earlier.take(i) =~= transfers.take(i));
            assert forall|j: int| i < j <= transfers.len() implies Self::pushed_by(
                transfers.take(i),
            ).len() < Self::pushed_by(#[trigger] transfers.take(j)).len() by {
                if j < transfers.len() {
                    assert(earlier.take(j) =~= transfers.take(j));
                }
            }
        }
    }

    /// Of two messages, the one that went in first comes out first.
    ///
    /// The messages are designated by the calls that push them. The places that
    /// they have among the messages that went in are those that they have among
    /// the messages that come out.
    pub proof fn law_order_is_kept(
        states: Seq<Self>,
        transfers: Seq<Transfer<T>>,
        first: int,
        second: int,
    )
        requires
            Self::history(states, transfers),
            states[0].messages().len() == 0,
            0 <= first < second < transfers.len(),
            transfers[first] is Push,
            transfers[second] is Push,
        ensures
            ({
                let popped = Self::popped_by(transfers);
                let first_place = Self::pushed_by(transfers.take(first)).len() as int;
                let second_place = Self::pushed_by(transfers.take(second)).len() as int;
                &&& first_place < second_place
                &&& first_place < popped.len() ==> popped[first_place]
                    == transfers[first]->Push_0
                &&& second_place < popped.len() ==> popped[second_place]
                    == transfers[second]->Push_0
            }),
    {
        Self::law_first_in_first_out(states, transfers);
        Self::lemma_place(transfers, first);
        Self::lemma_place(transfers, second);
        let popped = Self::popped_by(transfers);
        let pushed = Self::pushed_by(transfers);
        assert(states[0].messages() + pushed =~= pushed);
        assert forall|i: int| 0 <= i < popped.len() implies popped[i] == pushed[i] by {
            assert((popped + states.last().messages())[i] == popped[i]);
        }
    }

    /// A queue never holds more messages than its capacity.
    pub proof fn law_bounded(self)
        requires
            self.wf(),
        ensures
            self.messages().len() <= self.capacity(),
            self.capacity() >= 1,
    {
    }

    /// As long as no message is lent, a queue has room for a message if and
    /// only if it holds fewer messages than its capacity.
    pub proof fn law_room(self)
        requires
            self.wf(),
            self.nothing_lent(),
        ensures
            self.has_room() <==> self.messages().len() < self.capacity(),
    {
    }
}

} // verus!
