//! The pool of worker threads.

use vstd::prelude::*;

use super::rng::{next_seed, reduced, wyrand, Rng};
use crate::simulation::model_id::ModelId;
use crate::util::bit_field::{
    bit, count_ones, find_bit, lemma_low_ones, lemma_set_bit, lemma_shift_right, lemma_single,
    lemma_zero, ones_below, rotate_right, rotated_bit,
};

verus! {

/// Whether any worker of a pool is active.
#[derive(Clone, Copy, Debug, PartialEq, Eq, Structural)]
pub enum PoolState {
    /// No worker is active.
    Idle,
    /// At least one worker is active.
    Busy,
}

/// Count of the number of times that each worker was activated.
pub struct Record {
    stats: Vec<usize>,
}

impl View for Record {
    type V = Seq<usize>;

    /// The number of activations of each worker.
    closed spec fn view(&self) -> Seq<usize> {
        self.stats@
    }
}

/// The sum of two counts, which wraps around.
pub open spec fn wrapped_sum(a: usize, b: usize) -> usize {
    if a + b <= usize::MAX {
        (a + b) as usize
    } else {
        (a + b - usize::MAX - 1) as usize
    }
}

/// The counts of all activations after one more activation of a worker.
pub open spec fn incremented(counts: Seq<usize>, worker: int) -> Seq<usize> {
    counts.update(worker, wrapped_sum(counts[worker], 1))
}

/// The number of times that a worker occurs in a sequence of activations.
pub open spec fn activations(worker_ids: Seq<usize>, worker: int) -> nat {
    worker_ids.filter(|worker_id: usize| worker_id == worker).len()
}

impl Record {
    /// Creates a record with null counts.
    pub fn new(worker_count: usize) -> (record: Self)
        ensures
            record@ == Seq::new(worker_count as nat, |i: int| 0usize),
    {
        let mut stats: Vec<usize> = Vec::new();
        let mut i: usize = 0;
        while i < worker_count
            invariant
                i <= worker_count,
                stats@ == Seq::new(i as nat, |i: int| 0usize),
            decreases worker_count - i,
        {
            stats.push(0);
            i += 1;
            assert(stats@ =~= Seq::new(i as nat, |i: int| 0usize));
        }
        Record { stats }
    }

    /// Increments the count of a worker.
    pub fn increment(&mut self, worker_id: usize)
        requires
            worker_id < old(self)@.len(),
        ensures
            final(self)@ == incremented(old(self)@, worker_id as int),
    {
        let count: usize = self.stats[worker_id];
        self.stats.set(worker_id, count.wrapping_add(1));
    }

    /// Returns all counts.
    pub fn get(&self) -> (stats: Vec<usize>)
        ensures
            stats@ == self@,
    {
        let stats = self.stats.clone();
        assert(stats@ =~= self@);
        stats
    }

    /// The count of a worker is the number of times that it was incremented since
    /// the creation of the record, unless it has wrapped around.
    pub proof fn law_counts(worker_count: nat, worker_ids: Seq<usize>, history: Seq<Self>)
        requires
            // The record is created.
            history.len() == worker_ids.len() + 1,
            history[0]@ == Seq::new(worker_count, |i: int| 0usize),
            // The counts of the given workers are then incremented in turn.
            forall|k: int| #![trigger worker_ids[k]]
                0 <= k < worker_ids.len() ==> worker_ids[k] < worker_count && history[k + 1]@
                    == incremented(history[k]@, worker_ids[k] as int),
        ensures
            history.last()@.len() == worker_count,
            forall|i: int|
                0 <= i < worker_count ==> (#[trigger] history.last()@[i]) == activations(
                    worker_ids,
                    i,
                ) as int % (usize::MAX + 1),
        decreases worker_ids.len(),
    {
        reveal(Seq::filter);
        if worker_ids.len() > 0 {
            let others = worker_ids.drop_last();
            let last = worker_ids.last() as int;
            let before = history.drop_last();
            assert forall|k: int| #![trigger others[k]] 0 <= k < others.len() implies others[k]
                < worker_count && before[k + 1]@ == incremented(
                before[k]@,
                others[k] as int,
            ) by {
                assert(others[k] == worker_ids[k]);
            }
            Self::law_counts(worker_count, others, before);
            assert(worker_ids[worker_ids.len() - 1] == last);
            assert forall|i: int| 0 <= i < worker_count implies (
            #[trigger] history.last()@[i]) == activations(worker_ids, i) as int % (usize::MAX
                + 1) by {
                let count = activations(others, i) as int;
                let modulus = usize::MAX + 1;
                assert(before.last()@[i] == count % modulus);
                if i == last {
                    assert(activations(worker_ids, i) == count + 1);
                    lemma_next_count(count, modulus);
                } else {
                    assert(activations(worker_ids, i) == count);
                }
            }
        } else {
            vstd::arithmetic::div_mod::lemma_small_mod(0, (usize::MAX + 1) as nat);
            assert forall|i: int| 0 <= i < worker_count implies activations(
                worker_ids,
                i,
            ) == 0 by {}
        }
    }
}

proof fn lemma_next_count(count: int, modulus: int)
    requires
        0 <= count,
        0 < modulus,
    ensures
        (count + 1) % modulus == if count % modulus + 1 < modulus {
            count % modulus + 1
        } else {
            0
        },
{
    let quotient = count / modulus;
    let rest = count % modulus;
    vstd::arithmetic::div_mod::lemma_fundamental_div_mod(count, modulus);
    if rest + 1 < modulus {
        vstd::arithmetic::div_mod::lemma_fundamental_div_mod_converse(
            count + 1,
            modulus,
            quotient,
            rest + 1,
        );
    } else {
        assert((quotient + 1) * modulus == quotient * modulus + modulus) by (nonlinear_arith);
        assert(quotient * modulus == modulus * quotient) by (nonlinear_arith);
        vstd::arithmetic::div_mod::lemma_fundamental_div_mod_converse(
            count + 1,
            modulus,
            quotient + 1,
            0,
        );
    }
}

/// Registry of active/idle worker threads.
///
/// The registry only supports up to `usize::BITS` threads.
pub struct PoolRegistry {
    active_workers: usize,
    pool_size: usize,
    record: Record,
}

impl PoolRegistry {
    /// The number of workers.
    pub closed spec fn size(self) -> nat {
        self.pool_size as nat
    }

    /// Whether a worker is active.
    pub closed spec fn active(self, worker: int) -> bool {
        bit(self.active_workers, worker)
    }

    /// The number of times that each worker was activated on request.
    pub closed spec fn record(self) -> Seq<usize> {
        self.record@
    }

    /// The invariant of the registry.
    pub closed spec fn wf(self) -> bool {
        &&& 1 <= self.pool_size <= usize::BITS
        &&& self.record@.len() == self.pool_size
        &&& forall|j: int| #[trigger] bit(self.active_workers, j) ==> j < self.pool_size
    }

    /// Only workers of the pool are active.
    pub proof fn law_members(self)
        requires
            self.wf(),
        ensures
            1 <= self.size() <= usize::BITS,
            self.record().len() == self.size(),
            forall|worker: int| #[trigger] self.active(worker) ==> 0 <= worker < self.size(),
    {
    }

    /// Whether no worker is active.
    pub open spec fn idle(self) -> bool {
        forall|worker: int| !#[trigger] self.active(worker)
    }

    /// Creates a new pool registry in which all workers are idle.
    ///
    /// The pool size may not be zero nor more than `usize::BITS`.
    pub fn new(pool_size: usize) -> (registry: Self)
        requires
            1 <= pool_size <= usize::BITS,
        ensures
            registry.wf(),
            registry.size() == pool_size,
            registry.idle(),
            registry.record() == Seq::new(pool_size as nat, |i: int| 0usize),
    {
        proof {
            lemma_zero(0);
        }
        PoolRegistry { active_workers: 0, pool_size, record: Record::new(pool_size) }
    }

    /// Returns the number of workers.
    pub fn pool_size(&self) -> (size: usize)
        ensures
            size == self.size(),
    {
        self.pool_size
    }

    /// Returns the state of the pool.
    pub fn pool_state(&self) -> (state: PoolState)
        ensures
            state is Idle <==> self.idle(),
    {
        proof {
            lemma_zero(self.active_workers);
            if !self.idle() {
                let worker = choose|worker: int| self.active(worker);
                assert(bit(self.active_workers, worker));
            }
            if self.active_workers != 0 {
                let j = choose|j: int| bit(self.active_workers, j);
                assert(self.active(j));
            }
        }
        if self.active_workers == 0 {
            PoolState::Idle
        } else {
            PoolState::Busy
        }
    }

    /// Whether the activity of all workers but one is the same in two states
    /// of a registry.
    pub open spec fn only_differs_at(self, other: Self, worker: int) -> bool {
        &&& self.size() == other.size()
        &&& forall|w: int| w != worker ==> #[trigger] self.active(w) == other.active(w)
    }

    /// Marks the specified worker as inactive.
    ///
    /// Returns `PoolState::Idle` if this was the last active worker.
    pub fn set_inactive(&mut self, worker_id: usize) -> (state: PoolState)
        requires
            old(self).wf(),
            worker_id < old(self).size(),
        ensures
            final(self).wf(),
            final(self).only_differs_at(*old(self), worker_id as int),
            !final(self).active(worker_id as int),
            final(self).record() == old(self).record(),
            state is Idle <==> final(self).idle(),
    {
        proof {
            lemma_set_bit(self.active_workers, worker_id);
        }
        self.active_workers = self.active_workers & !(1usize << worker_id);
        self.pool_state()
    }

    /// Marks the specified worker as active.
    pub fn set_active(&mut self, worker_id: usize)
        requires
            old(self).wf(),
            worker_id < old(self).size(),
        ensures
            final(self).wf(),
            final(self).only_differs_at(*old(self), worker_id as int),
            final(self).active(worker_id as int),
            final(self).record() == old(self).record(),
    {
        proof {
            lemma_set_bit(self.active_workers, worker_id);
        }
        self.active_workers = self.active_workers | (1usize << worker_id);
    }

    /// Marks all workers as active.
    pub fn set_all_active(&mut self)
        requires
            old(self).wf(),
        ensures
            final(self).wf(),
            final(self).size() == old(self).size(),
            final(self).record() == old(self).record(),
            forall|worker: int| #[trigger]
                final(self).active(worker) <==> 0 <= worker < final(self).size(),
    {
        proof {
            lemma_low_ones(self.pool_size);
        }
        self.active_workers = !0usize >> (usize::BITS as usize - self.pool_size);
    }

    /// Marks all workers as inactive.
    pub fn set_all_inactive(&mut self)
        requires
            old(self).wf(),
        ensures
            final(self).wf(),
            final(self).size() == old(self).size(),
            final(self).record() == old(self).record(),
            final(self).idle(),
    {
        proof {
            lemma_zero(0);
        }
        self.active_workers = 0;
    }

    /// The first worker that is not active.
    pub open spec fn first_idle(self, worker: int) -> bool {
        &&& 0 <= worker < self.size()
        &&& !self.active(worker)
        &&& forall|w: int| 0 <= w < worker ==> #[trigger] self.active(w)
    }

    /// Marks a worker as active if any is idle, otherwise does nothing.
    ///
    /// The worker with the smallest ID is chosen. Its ID is returned.
    pub fn set_one_active_relaxed(&mut self) -> (worker_id: Option<usize>)
        requires
            old(self).wf(),
        ensures
            final(self).wf(),
            match worker_id {
                Some(worker_id) => {
                    &&& old(self).first_idle(worker_id as int)
                    &&& final(self).active(worker_id as int)
                    &&& final(self).only_differs_at(*old(self), worker_id as int)
                    &&& final(self).record() == incremented(old(self).record(), worker_id as int)
                },
                None => {
                    &&& forall|w: int| 0 <= w < old(self).size() ==> #[trigger] old(self).active(w)
                    &&& *final(self) == *old(self)
                },
            },
    {
        let mut worker_id: usize = 0;
        while worker_id < self.pool_size
            invariant
                self.wf(),
                *self == *old(self),
                worker_id <= self.pool_size,
                forall|w: int| 0 <= w < worker_id ==> #[trigger] self.active(w),
            decreases self.pool_size - worker_id,
        {
            if (self.active_workers >> worker_id) & 1 != 1 {
                assert(!self.active(worker_id as int));
                self.set_active(worker_id);
                let ghost marked = *self;
                self.record.increment(worker_id);
                assert(self.active(worker_id as int));
                assert forall|w: int| w != worker_id implies #[trigger] self.active(w) == old(
                    self).active(w) by {
                    assert(marked.active(w) == old(self).active(w));
                }
                return Some(worker_id);
            }
            assert(self.active(worker_id as int));
            worker_id += 1;
        }
        None
    }

    /// Marks a worker as active if any is idle, otherwise does nothing.
    ///
    /// The worker with the smallest ID is chosen. Its ID is returned.
    pub fn set_one_active(&mut self) -> (worker_id: Option<usize>)
        requires
            old(self).wf(),
        ensures
            final(self).wf(),
            match worker_id {
                Some(worker_id) => {
                    &&& old(self).first_idle(worker_id as int)
                    &&& final(self).active(worker_id as int)
                    &&& final(self).only_differs_at(*old(self), worker_id as int)
                    &&& final(self).record() == incremented(old(self).record(), worker_id as int)
                },
                None => {
                    &&& forall|w: int| 0 <= w < old(self).size() ==> #[trigger] old(self).active(w)
                    &&& *final(self) == *old(self)
                },
            },
    {
        self.set_one_active_relaxed()
    }

    /// Returns a bit field that indicates all active workers.
    pub fn get_active(&self) -> (active_workers: usize)
        ensures
            forall|worker: int| #[trigger] bit(active_workers, worker) == self.active(worker),
    {
        self.active_workers
    }

    /// Whether a worker is the only active worker.
    pub open spec fn last_active(self, worker: int) -> bool {
        &&& self.active(worker)
        &&& forall|w: int| #[trigger] self.active(w) ==> w == worker
    }

    /// Marks the specified worker, which must be active, as inactive unless it
    /// is the last active worker.
    ///
    /// If this was the last active worker, `false` is returned.
    pub fn try_set_inactive(&mut self, worker_id: usize) -> (done: bool)
        requires
            old(self).wf(),
            old(self).active(worker_id as int),
        ensures
            final(self).wf(),
            done == !old(self).last_active(worker_id as int),
            final(self).record() == old(self).record(),
            done ==> {
                &&& final(self).only_differs_at(*old(self), worker_id as int)
                &&& !final(self).active(worker_id as int)
            },
            !done ==> *final(self) == *old(self),
    {
        proof {
            lemma_single(self.active_workers, worker_id);
            if self.last_active(worker_id as int) {
                assert forall|j: int| bit(self.active_workers, j) implies j == worker_id by {
                    assert(self.active(j));
                }
            }
            if forall|j: int| bit(self.active_workers, j) ==> j == worker_id {
                assert(self.last_active(worker_id as int));
            }
        }
        if self.active_workers == 1usize << worker_id {
            false
        } else {
            self.set_inactive(worker_id);
            true
        }
    }
}

/// The workers for which a predicate on the distance to the first one holds, in
/// cyclic order from the one at the given distance.
pub open spec fn cyclic(
    candidate: spec_fn(int) -> bool,
    start: int,
    pool_size: int,
    distance: int,
) -> Seq<int>
    decreases pool_size - distance,
{
    if distance >= pool_size {
        Seq::empty()
    } else {
        let rest = cyclic(candidate, start, pool_size, distance + 1);
        if candidate(distance) {
            seq![(start + distance) % pool_size] + rest
        } else {
            rest
        }
    }
}

/// An iteration over active workers, starting from a randomly selected active
/// worker.
pub struct ShuffledStealers {
    /// Number of workers.
    pool_size: usize,
    /// A bit-rotated bit field of the remaining candidate workers to steal
    /// from. If set, the LSB represents the next candidate.
    candidates: usize,
    /// Index of the next candidate.
    next_candidate: usize,
}

impl ShuffledStealers {
    /// The workers that are still to be visited, in order.
    pub closed spec fn remaining(self) -> Seq<int> {
        let candidates = self.candidates;
        cyclic(
            |k: int| bit(candidates, k),
            self.next_candidate as int,
            self.pool_size as int,
            0,
        )
    }

    /// The number of workers of the pool.
    pub closed spec fn size(self) -> nat {
        self.pool_size as nat
    }

    /// The invariant of the iteration.
    pub closed spec fn wf(self) -> bool {
        &&& 1 <= self.pool_size <= usize::BITS
        &&& self.next_candidate < self.pool_size
        &&& forall|j: int| #[trigger] bit(self.candidates, j) ==> j < self.pool_size
        &&& self.candidates != 0 ==> bit(self.candidates, 0)
    }

    /// The order of an iteration: the first candidate is selected with the next
    /// random number, the others follow in cyclic order.
    pub open spec fn begun(
        candidates: usize,
        pool_size: int,
        before: Rng,
        order: Seq<int>,
        after: Rng,
    ) -> bool {
        if candidates == 0 {
            order == Seq::<int>::empty() && after == before
        } else {
            let count = ones_below(candidates, usize::BITS as int) as u64;
            let start = order[0];
            &&& after.seed() == next_seed(before.seed())
            &&& bit(candidates, start)
            &&& ones_below(candidates, start) == reduced(wyrand(after.seed()), count)
            &&& order == all_from(candidates, start, pool_size)
        }
    }

    /// Begins an iteration at a randomly selected candidate.
    ///
    /// The candidates are given as a bit field.
    pub fn new(candidates: usize, pool_size: usize, rng: &mut Rng) -> (stealers: Self)
        requires
            1 <= pool_size <= usize::BITS,
            forall|j: int| #[trigger] bit(candidates, j) ==> j < pool_size,
        ensures
            stealers.wf(),
            stealers.size() == pool_size,
            Self::begun(
                candidates,
                pool_size as int,
                *old(rng),
                stealers.remaining(),
                *final(rng),
            ),
    {
        if candidates == 0 {
            let stealers = ShuffledStealers { pool_size, candidates: 0, next_candidate: 0 };
            proof {
                lemma_zero(0);
                lemma_no_candidate(|k: int| bit(0, k), 0, pool_size as int, 0);
                assert(stealers.remaining() =~= Seq::<int>::empty());
            }
            return stealers;
        }
        let count: usize = count_ones(candidates);
        let rank: usize = rng.gen_bounded(count as u64) as usize + 1;
        let next_candidate: usize = find_bit(candidates, rank);

        // Right-rotate the candidates so that the bit corresponding to the
        // randomly selected worker becomes the LSB.
        proof {
            assert(bit(candidates, next_candidate as int));
        }
        let rotated: usize = rotate_right(candidates, next_candidate, pool_size);
        let stealers = ShuffledStealers { pool_size, candidates: rotated, next_candidate };
        proof {
            let n = pool_size as int;
            let start = next_candidate as int;
            assert(bit(rotated, 0) <==> rotated_bit(candidates, start, n, 0));
            assert forall|k: int| 0 <= k < n implies bit(rotated, k) == bit(
                candidates,
                (start + k) % n,
            ) by {
                assert(bit(rotated, k) <==> rotated_bit(candidates, start, n, k));
                lemma_cyclic_index(start, k, n);
            }
            let p = |k: int| bit(rotated, k);
            let q = |k: int| bit(candidates, (start + k) % n);
            lemma_same_candidates(p, q, start, n, 0);
            lemma_first(p, start, n);
            assert forall|j: int| #[trigger] bit(rotated, j) implies j < n by {
                assert(rotated_bit(candidates, start, n, j));
            }
        }
        stealers
    }

    /// Returns the next worker, if any.
    pub fn next(&mut self) -> (worker: Option<usize>)
        requires
            old(self).wf(),
        ensures
            final(self).wf(),
            final(self).size() == old(self).size(),
            match worker {
                Some(worker) => {
                    &&& worker < old(self).size()
                    &&& old(self).remaining().len() > 0
                    &&& worker == old(self).remaining()[0]
                    &&& final(self).remaining() == old(self).remaining().drop_first()
                },
                None => {
                    &&& old(self).remaining().len() == 0
                    &&& *final(self) == *old(self)
                },
            },
    {
        let ghost n = self.pool_size as int;
        let ghost start = self.next_candidate as int;
        let ghost c = self.candidates;
        let ghost p = |k: int| bit(c, k);
        if self.candidates == 0 {
            proof {
                lemma_zero(0);
                lemma_no_candidate(p, start, n, 0);
            }
            return None;
        }

        // Clear the bit corresponding to the current candidate worker.
        proof {
            lemma_set_bit(self.candidates, 0);
            assert(1usize << 0usize == 1) by (bit_vector);
            lemma_first(p, start, n);
        }
        self.candidates = self.candidates & !1usize;
        let current_candidate: usize = self.next_candidate;
        let ghost d = self.candidates;
        let ghost q = |k: int| bit(d, k);
        proof {
            lemma_same_candidates(p, q, start, n, 1);
            lemma_zero(d);
        }
        if self.candidates != 0 {
            // Locate the next candidate worker and make it the LSB.
            let ghost later = choose|j: int| bit(d, j);
            proof {
                assert(bit(d, later));
            }
            let mut shift: usize = 1;
            while (self.candidates >> shift) & 1 != 1
                invariant
                    1 <= shift <= later < n,
                    self.candidates == d,
                    n <= usize::BITS,
                    bit(d, later),
                    forall|j: int| 1 <= j < shift ==> !#[trigger] bit(d, j),
                decreases later - shift,
            {
                assert(!bit(d, shift as int));
                shift += 1;
            }
            proof {
                lemma_skip(q, start, n, 1, shift as int);
                lemma_shift_right(d, shift);
            }
            self.candidates = self.candidates >> shift;

            // Update the next candidate.
            let ghost e = self.candidates;
            let mut next_candidate: usize = self.next_candidate + shift;
            if next_candidate >= self.pool_size {
                next_candidate = next_candidate - self.pool_size;
            }
            self.next_candidate = next_candidate;
            proof {
                lemma_cyclic_index(start, shift as int, n);
                let r = |k: int| bit(e, k);
                assert forall|k: int| 0 <= k implies #[trigger] r(k) == q(k + shift) by {
                    assert(bit(e, k) == bit(d, shift + k));
                }
                lemma_renumber(r, q, start, shift as int, n, 0);
                assert(bit(e, 0) == bit(d, shift as int));
                assert forall|j: int| #[trigger] bit(e, j) implies j < n by {
                    assert(bit(d, shift + j));
                }
            }
        } else {
            proof {
                lemma_no_candidate(q, start, n, 0);
                lemma_no_candidate(q, start, n, 1);
            }
        }
        proof {
            assert(old(self).remaining() =~= seq![start] + self.remaining());
            assert(old(self).remaining().drop_first() =~= self.remaining());
        }
        Some(current_candidate)
    }
}

/// The workers of a bit field, in cyclic order from the given one.
pub open spec fn all_from(candidates: usize, start: int, pool_size: int) -> Seq<int> {
    cyclic(|k: int| bit(candidates, (start + k) % pool_size), start, pool_size, 0)
}

proof fn lemma_cyclic_index(start: int, k: int, n: int)
    requires
        0 <= start < n,
        0 <= k < n,
    ensures
        (start + k) % n == (if start + k < n {
            start + k
        } else {
            start + k - n
        }),
{
    if start + k < n {
        vstd::arithmetic::div_mod::lemma_small_mod((start + k) as nat, n as nat);
    } else {
        vstd::arithmetic::div_mod::lemma_fundamental_div_mod_converse(
            start + k,
            n,
            1,
            start + k - n,
        );
    }
}

proof fn lemma_same_candidates(
    p: spec_fn(int) -> bool,
    q: spec_fn(int) -> bool,
    start: int,
    n: int,
    d: int,
)
    requires
        forall|k: int| d <= k < n ==> #[trigger] p(k) == q(k),
    ensures
        cyclic(p, start, n, d) == cyclic(q, start, n, d),
    decreases n - d,
{
    if d < n {
        assert(p(d) == q(d));
        lemma_same_candidates(p, q, start, n, d + 1);
    }
}

proof fn lemma_no_candidate(p: spec_fn(int) -> bool, start: int, n: int, d: int)
    requires
        forall|k: int| d <= k < n ==> !#[trigger] p(k),
    ensures
        cyclic(p, start, n, d) == Seq::<int>::empty(),
    decreases n - d,
{
    if d < n {
        assert(!p(d));
        lemma_no_candidate(p, start, n, d + 1);
    }
}

proof fn lemma_skip(p: spec_fn(int) -> bool, start: int, n: int, d: int, e: int)
    requires
        d <= e <= n,
        forall|k: int| d <= k < e ==> !#[trigger] p(k),
    ensures
        cyclic(p, start, n, d) == cyclic(p, start, n, e),
    decreases e - d,
{
    if d < e {
        assert(!p(d));
        lemma_skip(p, start, n, d + 1, e);
    }
}

proof fn lemma_first(p: spec_fn(int) -> bool, start: int, n: int)
    requires
        0 <= start < n,
        p(0),
    ensures
        cyclic(p, start, n, 0) == seq![start] + cyclic(p, start, n, 1),
        cyclic(p, start, n, 0)[0] == start,
{
    lemma_cyclic_index(start, 0, n);
}

proof fn lemma_renumber(
    p: spec_fn(int) -> bool,
    q: spec_fn(int) -> bool,
    start: int,
    shift: int,
    n: int,
    d: int,
)
    requires
        0 <= start < n,
        0 <= shift < n,
        0 <= d,
        forall|k: int| 0 <= k ==> #[trigger] p(k) == q(k + shift),
        forall|k: int| n <= k ==> !#[trigger] q(k),
    ensures
        cyclic(p, (start + shift) % n, n, d) == cyclic(q, start, n, d + shift),
    decreases n - d,
{
    if d < n {
        lemma_renumber(p, q, start, shift, n, d + 1);
        assert(p(d) == q(d + shift));
        if d + shift < n {
            vstd::arithmetic::div_mod::lemma_add_mod_noop_right(d, start + shift, n);
            assert(((start + shift) % n + d) % n == (start + (d + shift)) % n);
        }
    }
}

proof fn lemma_cyclic_members(p: spec_fn(int) -> bool, start: int, n: int, d: int)
    requires
        0 <= start < n,
        0 <= d,
    ensures
        cyclic(p, start, n, d).no_duplicates(),
        forall|w: int| #[trigger]
            cyclic(p, start, n, d).contains(w) <==> exists|k: int|
                d <= k < n && #[trigger] p(k) && w == (start + k) % n,
    decreases n - d,
{
    let all = cyclic(p, start, n, d);
    if d < n {
        lemma_cyclic_members(p, start, n, d + 1);
        let rest = cyclic(p, start, n, d + 1);
        let head = (start + d) % n;
        if p(d) {
            assert(all =~= seq![head] + rest);
            assert(!rest.contains(head)) by {
                if rest.contains(head) {
                    let k = choose|k: int| d + 1 <= k < n && #[trigger] p(k) && head == (start + k) % n;
                    crate::util::ring::lemma_distinct_indices(start + d, start + k, n);
                }
            }
            assert forall|w: int| #[trigger] all.contains(w) <==> exists|k: int|
                d <= k < n && #[trigger] p(k) && w == (start + k) % n by {
                if all.contains(w) {
                    let i = all.index_of(w);
                    if i > 0 {
                        assert(rest[i - 1] == w);
                        assert(rest.contains(w));
                    }
                }
                if exists|k: int| d <= k < n && #[trigger] p(k) && w == (start + k) % n {
                    let k = choose|k: int| d <= k < n && #[trigger] p(k) && w == (start + k) % n;
                    if k == d {
                        assert(all[0] == w);
                    } else {
                        assert(rest.contains(w));
                        let i = rest.index_of(w);
                        assert(all[i + 1] == w);
                    }
                }
            }
            assert forall|i: int, j: int| 0 <= i < j < all.len() implies all[i] != all[j] by {
                if i == 0 {
                    assert(rest[j - 1] == all[j]);
                    assert(rest.contains(all[j]));
                } else {
                    assert(rest[i - 1] == all[i] && rest[j - 1] == all[j]);
                }
            }
        }
    }
}

/// Every candidate is visited exactly once, and nobody else is.
pub proof fn law_each_candidate_visited_once(candidates: usize, start: int, pool_size: int)
    requires
        0 <= start < pool_size <= usize::BITS,
        forall|j: int| #[trigger] bit(candidates, j) ==> j < pool_size,
    ensures
        all_from(candidates, start, pool_size).no_duplicates(),
        forall|worker: int| #[trigger]
            all_from(candidates, start, pool_size).contains(worker) <==> bit(candidates, worker),
{
    let n = pool_size;
    let p = |k: int| bit(candidates, (start + k) % n);
    lemma_cyclic_members(p, start, n, 0);
    assert forall|worker: int| #[trigger]
        all_from(candidates, start, n).contains(worker) <==> bit(candidates, worker) by {
        if bit(candidates, worker) {
            let k = if worker >= start {
                worker - start
            } else {
                worker - start + n
            };
            lemma_cyclic_index(start, k, n);
            assert(p(k));
        }
    }
}

/// Manager of worker threads.
///
/// The manager decides which threads are parked or unparked; parking and
/// unparking is the responsibility of the caller.
pub struct PoolManager {
    /// Registry of all workers that are currently unparked.
    registry: PoolRegistry,
    /// Count of all workers currently searching for tasks.
    searching_workers: usize,
    /// Signal requesting all workers to return.
    terminate_signal: bool,
    /// Panic caught in a worker thread: the model that was polled and a number
    /// that designates the payload.
    worker_panic: Option<(ModelId, u64)>,
}

impl PoolManager {
    /// The registry of active workers.
    pub closed spec fn registry(self) -> PoolRegistry {
        self.registry
    }

    /// The number of workers searching for tasks.
    pub closed spec fn searching(self) -> usize {
        self.searching_workers
    }

    /// Whether the workers were requested to return.
    pub closed spec fn terminating(self) -> bool {
        self.terminate_signal
    }

    /// The registered panic, if any.
    pub closed spec fn panic(self) -> Option<(ModelId, u64)> {
        self.worker_panic
    }

    /// The invariant of the manager.
    pub open spec fn wf(self) -> bool {
        self.registry().wf()
    }

    /// Creates a manager for a pool of idle workers.
    ///
    /// The pool size may not be zero nor more than `usize::BITS`.
    pub fn new(pool_size: usize) -> (manager: Self)
        requires
            1 <= pool_size <= usize::BITS,
        ensures
            manager.wf(),
            manager.registry().size() == pool_size,
            manager.registry().idle(),
            manager.registry().record() == Seq::new(pool_size as nat, |i: int| 0usize),
            manager.searching() == 0,
            !manager.terminating(),
            manager.panic() is None,
    {
        PoolManager {
            registry: PoolRegistry::new(pool_size),
            searching_workers: 0,
            terminate_signal: false,
            worker_panic: None,
        }
    }

    /// Whether an idle worker was marked as active and as searching for tasks,
    /// and its activation was recorded, if there was one.
    pub open spec fn activated(before: Self, worker_id: Option<usize>, after: Self) -> bool {
        &&& after.terminating() == before.terminating()
        &&& after.panic() == before.panic()
        &&& match worker_id {
            Some(worker_id) => {
                &&& before.registry().first_idle(worker_id as int)
                &&& after.registry().active(worker_id as int)
                &&& after.registry().only_differs_at(before.registry(), worker_id as int)
                &&& after.registry().record() == incremented(
                    before.registry().record(),
                    worker_id as int,
                )
                &&& after.searching() == wrapped_sum(before.searching(), 1)
            },
            None => {
                &&& forall|w: int|
                    0 <= w < before.registry().size() ==> #[trigger] before.registry().active(w)
                &&& after.registry() == before.registry()
                &&& after.searching() == before.searching()
            },
        }
    }

    /// Marks an idle worker as active if any is found, or does nothing
    /// otherwise.
    ///
    /// The ID of the worker, which must be unparked, is returned.
    pub fn activate_worker_relaxed(&mut self) -> (worker_id: Option<usize>)
        requires
            old(self).wf(),
        ensures
            final(self).wf(),
            Self::activated(*old(self), worker_id, *final(self)),
    {
        let worker_id = self.registry.set_one_active_relaxed();
        if worker_id.is_some() {
            self.begin_worker_search();
        }
        worker_id
    }

    /// Marks an idle worker as active if any is found, or does nothing
    /// otherwise.
    ///
    /// The ID of the worker, which must be unparked, is returned.
    pub fn activate_worker(&mut self) -> (worker_id: Option<usize>)
        requires
            old(self).wf(),
        ensures
            final(self).wf(),
            Self::activated(*old(self), worker_id, *final(self)),
    {
        let worker_id = self.registry.set_one_active();
        if worker_id.is_some() {
            self.begin_worker_search();
        }
        worker_id
    }

    /// Whether everything but the registry is the same in two states of a
    /// manager.
    pub open spec fn only_registry_differs(self, other: Self) -> bool {
        &&& self.searching() == other.searching()
        &&& self.terminating() == other.terminating()
        &&& self.panic() == other.panic()
        &&& self.registry().size() == other.registry().size()
        &&& self.registry().record() == other.registry().record()
    }

    /// Marks the specified worker, which must be active, as inactive unless it
    /// is the last active worker.
    ///
    /// If this was the last active worker, `false` is returned. The worker is
    /// in such case expected to check again the injector queue and then to
    /// explicitly call `set_all_workers_inactive` if it can confirm that the
    /// injector queue is empty.
    pub fn try_set_worker_inactive(&mut self, worker_id: usize) -> (done: bool)
        requires
            old(self).wf(),
            old(self).registry().active(worker_id as int),
        ensures
            final(self).wf(),
            final(self).only_registry_differs(*old(self)),
            done == !old(self).registry().last_active(worker_id as int),
            done ==> {
                &&& final(self).registry().only_differs_at(
                    old(self).registry(),
                    worker_id as int,
                )
                &&& !final(self).registry().active(worker_id as int)
            },
            !done ==> final(self).registry() == old(self).registry(),
    {
        self.registry.try_set_inactive(worker_id)
    }

    /// Checks if a worker of the pool is active.
    pub fn is_worker_active(&self, worker_id: usize) -> (r: bool)
        requires
            worker_id < usize::BITS,
        ensures
            r == self.registry().active(worker_id as int),
    {
        let active_workers: usize = self.registry.get_active();
        assert(bit(active_workers, worker_id as int) == self.registry.active(worker_id as int));
        (active_workers >> worker_id) & 1 == 1
    }

    /// Marks all pool workers as active.
    pub fn set_all_workers_active(&mut self)
        requires
            old(self).wf(),
        ensures
            final(self).wf(),
            final(self).only_registry_differs(*old(self)),
            forall|worker: int| #[trigger]
                final(self).registry().active(worker) <==> 0 <= worker < final(
                    self).registry().size(),
    {
        self.registry.set_all_active();
    }

    /// Marks all pool workers as inactive.
    ///
    /// This should only be called by the last active worker.
    pub fn set_all_workers_inactive(&mut self)
        requires
            old(self).wf(),
        ensures
            final(self).wf(),
            final(self).only_registry_differs(*old(self)),
            final(self).registry().idle(),
    {
        self.registry.set_all_inactive();
    }

    /// Checks if the pool is idle, i.e. if no worker is currently active.
    pub fn pool_is_idle(&self) -> (r: bool)
        ensures
            r == self.registry().idle(),
    {
        match self.registry.pool_state() {
            PoolState::Idle => true,
            PoolState::Busy => false,
        }
    }

    /// Increments the count of workers actively searching for tasks.
    pub fn begin_worker_search(&mut self)
        ensures
            final(self).searching() == wrapped_sum(old(self).searching(), 1),
            final(self).registry() == old(self).registry(),
            final(self).terminating() == old(self).terminating(),
            final(self).panic() == old(self).panic(),
    {
        self.searching_workers = self.searching_workers.wrapping_add(1);
    }

    /// Decrements the count of workers actively searching for tasks.
    pub fn end_worker_search(&mut self)
        ensures
            wrapped_sum(final(self).searching(), 1) == old(self).searching(),
            final(self).registry() == old(self).registry(),
            final(self).terminating() == old(self).terminating(),
            final(self).panic() == old(self).panic(),
    {
        self.searching_workers = self.searching_workers.wrapping_sub(1);
    }

    /// Returns the count of workers actively searching for tasks.
    pub fn searching_worker_count(&self) -> (count: usize)
        ensures
            count == self.searching(),
    {
        self.searching_workers
    }

    /// Triggers the termination signal and marks all workers as active.
    ///
    /// All workers must be unparked so they can cleanly terminate.
    pub fn trigger_termination(&mut self)
        requires
            old(self).wf(),
        ensures
            final(self).wf(),
            final(self).terminating(),
            final(self).searching() == old(self).searching(),
            final(self).panic() == old(self).panic(),
            final(self).registry().size() == old(self).registry().size(),
            final(self).registry().record() == old(self).registry().record(),
            forall|worker: int| #[trigger]
                final(self).registry().active(worker) <==> 0 <= worker < final(
                    self).registry().size(),
    {
        self.terminate_signal = true;
        self.registry.set_all_active();
    }

    /// Returns `true` if the termination signal was triggered.
    pub fn termination_is_triggered(&self) -> (r: bool)
        ensures
            r == self.terminating(),
    {
        self.terminate_signal
    }

    /// Registers a worker panic.
    ///
    /// If a panic was already registered and was not yet processed by the
    /// executor, then nothing is done.
    pub fn register_panic(&mut self, model_id: ModelId, payload: u64)
        ensures
            final(self).panic() == (if old(self).panic() is None {
                Some((model_id, payload))
            } else {
                old(self).panic()
            }),
            final(self).registry() == old(self).registry(),
            final(self).searching() == old(self).searching(),
            final(self).terminating() == old(self).terminating(),
    {
        if self.worker_panic.is_none() {
            self.worker_panic = Some((model_id, payload));
        }
    }

    /// Takes a worker panic if any is registered.
    pub fn take_panic(&mut self) -> (panic: Option<(ModelId, u64)>)
        ensures
            panic == old(self).panic(),
            final(self).panic() is None,
            final(self).registry() == old(self).registry(),
            final(self).searching() == old(self).searching(),
            final(self).terminating() == old(self).terminating(),
    {
        self.worker_panic.take()
    }

    /// Whether a bit field designates all active workers but the excluded one, if
    /// any.
    pub open spec fn can_be_robbed(
        self,
        candidates: usize,
        excluded_worker_id: Option<usize>,
    ) -> bool {
        forall|worker: int| #[trigger]
            bit(candidates, worker) <==> self.registry().active(worker) && excluded_worker_id
                != Some(worker as usize)
    }

    /// The order in which all active workers but the excluded one, if any, are
    /// visited, as selected by a random number generator.
    pub open spec fn visits(
        self,
        excluded_worker_id: Option<usize>,
        before: Rng,
        order: Seq<int>,
        after: Rng,
    ) -> bool {
        exists|candidates: usize|
            self.can_be_robbed(candidates, excluded_worker_id) && #[trigger] ShuffledStealers::begun(
                candidates,
                self.registry().size() as int,
                before,
                order,
                after,
            )
    }

    /// Begins an iteration over all active workers, starting from a randomly
    /// selected one. The worker which ID is provided in argument (if any) is
    /// excluded from the pool of candidates.
    pub fn shuffled_stealers(&self, excluded_worker_id: Option<usize>, rng: &mut Rng) -> (stealers:
        ShuffledStealers)
        requires
            self.wf(),
            excluded_worker_id is Some ==> excluded_worker_id->Some_0 < self.registry().size(),
        ensures
            stealers.wf(),
            stealers.size() == self.registry().size(),
            stealers.remaining().no_duplicates(),
            forall|worker: int| #[trigger]
                stealers.remaining().contains(worker) <==> self.registry().active(worker)
                    && excluded_worker_id != Some(worker as usize),
            self.visits(excluded_worker_id, *old(rng), stealers.remaining(), *final(rng)),
    {
        // All active workers except the specified one are candidate for
        // stealing.
        let mut candidates: usize = self.registry.get_active();
        proof {
            self.registry.law_members();
        }
        let ghost active = candidates;
        if let Some(excluded_worker_id) = excluded_worker_id {
            proof {
                lemma_set_bit(candidates, excluded_worker_id);
            }
            candidates = candidates & !(1usize << excluded_worker_id);
        }
        proof {
            assert forall|worker: int| #[trigger] bit(candidates, worker) <==> self.registry.active(
                worker,
            ) && excluded_worker_id != Some(worker as usize) by {
                assert(bit(active, worker) == self.registry.active(worker));
            }
            assert forall|j: int| #[trigger] bit(candidates, j) implies 0 <= j
                < self.registry.size() by {
                assert(self.registry.active(j));
            }
            lemma_zero(candidates);
        }
        let stealers = ShuffledStealers::new(candidates, self.registry.pool_size(), rng);
        proof {
            if candidates != 0 {
                let start = stealers.remaining()[0];
                let j = choose|j: int| bit(candidates, j);
                assert(bit(candidates, start));
                law_each_candidate_visited_once(
                    candidates,
                    start,
                    self.registry.size() as int,
                );
                assert(stealers.remaining().contains(j));
            }
            assert forall|worker: int| #[trigger] stealers.remaining().contains(worker)
                <==> self.registry().active(worker) && excluded_worker_id != Some(
                worker as usize,
            ) by {
                assert(bit(candidates, worker) <==> self.registry.active(worker)
                    && excluded_worker_id != Some(worker as usize));
            }
        }
        stealers
    }
}

/// Counts wrap around.
pub proof fn law_wrapped_sum(a: usize, b: usize)
    ensures
        wrapped_sum(a, b) == (a + b) % (usize::MAX + 1),
{
    let modulus = usize::MAX + 1;
    if a + b < modulus {
        vstd::arithmetic::div_mod::lemma_small_mod((a + b) as nat, modulus as nat);
    } else {
        vstd::arithmetic::div_mod::lemma_fundamental_div_mod_converse(
            a + b,
            modulus,
            1,
            a + b - modulus,
        );
    }
}

/// The idle worker with the smallest ID is activated, if any worker is idle, and begins
/// to search for tasks. No other worker is affected.
///
/// What happens to the others is stated of an arbitrary worker.
pub proof fn law_activation(
    before: PoolManager,
    worker_id: Option<usize>,
    after: PoolManager,
    other: int,
)
    requires
        before.wf(),
        PoolManager::activated(before, worker_id, after),
        0 <= other < before.registry().size(),
    ensures
        worker_id is None ==> after.registry() == before.registry() && after.searching()
            == before.searching(),
        worker_id is None ==> before.registry().active(other),
        worker_id matches Some(id) ==> {
            &&& id < before.registry().size()
            &&& !before.registry().active(id as int)
            &&& after.registry().active(id as int)
            &&& other < id ==> before.registry().active(other)
            &&& other != id ==> after.registry().active(other) == before.registry().active(other)
            &&& other != id ==> after.registry().record()[other] == before.registry().record()[other]
            &&& after.registry().record()[id as int] == (before.registry().record()[id as int] + 1)
                % (usize::MAX + 1)
            &&& after.registry().record().len() == before.registry().record().len()
            &&& after.registry().size() == before.registry().size()
            &&& after.searching() == (before.searching() + 1) % (usize::MAX + 1)
        },
        after.terminating() == before.terminating(),
        after.panic() == before.panic(),
{
    before.registry().law_members();
    law_wrapped_sum(before.searching(), 1);
    if let Some(id) = worker_id {
        law_wrapped_sum(before.registry().record()[id as int], 1);
    }
}

/// A pool is idle if and only if none of its workers is active, and a worker is the last
/// active one if and only if it is active and no other worker of the pool is.
pub proof fn law_activity(registry: PoolRegistry, worker: int)
    requires
        registry.wf(),
    ensures
        registry.idle() <==> forall|other: int|
            0 <= other < registry.size() ==> !#[trigger] registry.active(other),
        registry.last_active(worker) <==> registry.active(worker) && forall|other: int|
            0 <= other < registry.size() && #[trigger] registry.active(other) ==> other == worker,
{
    registry.law_members();
}

/// All active workers are visited but the excluded one, each exactly once. They are
/// visited in the order of their IDs, starting over from the smallest ID after the
/// largest one.
pub proof fn law_visits(
    manager: PoolManager,
    excluded_worker_id: Option<usize>,
    before: Rng,
    order: Seq<int>,
    after: Rng,
    i: int,
    j: int,
)
    requires
        manager.wf(),
        manager.visits(excluded_worker_id, before, order, after),
    ensures
        order.no_duplicates(),
        forall|worker: int| #[trigger]
            order.contains(worker) <==> manager.registry().active(worker) && excluded_worker_id
                != Some(worker as usize),
        order.len() == 0 ==> after == before,
        order.len() > 0 ==> after.seed() == next_seed(before.seed()),
        0 <= i < j < order.len() ==> (if order[0] <= order[i] {
            order[i] < order[j] || order[j] < order[0]
        } else {
            order[i] < order[j] < order[0]
        }),
{
    let candidates = choose|candidates: usize|
        manager.can_be_robbed(candidates, excluded_worker_id) && #[trigger] ShuffledStealers::begun(
            candidates,
            manager.registry().size() as int,
            before,
            order,
            after,
        );
    let n = manager.registry().size() as int;
    manager.registry().law_members();
    assert forall|worker: int| #[trigger] bit(candidates, worker) implies worker < n by {
        assert(manager.registry().active(worker));
    }
    lemma_zero(candidates);
    if candidates != 0 {
        let start = order[0];
        assert(manager.registry().active(start));
        law_each_candidate_visited_once(candidates, start, n);
        let first = choose|w: int| bit(candidates, w);
        assert(order.contains(first));
        if 0 <= i < j < order.len() {
            let p = |k: int| bit(candidates, (start + k) % n);
            lemma_cyclic_order(p, start, n, 0);
            assert(order == cyclic(p, start, n, 0));
            assert(distance(start, order[i], n) < distance(start, order[j], n));
        }
    } else {
        assert forall|worker: int| #[trigger]
            order.contains(worker) <==> manager.registry().active(worker) && excluded_worker_id
                != Some(worker as usize) by {
            assert(!bit(candidates, worker));
        }
    }
}

/// The distance from a worker to another one, in cyclic order.
spec fn distance(start: int, worker: int, n: int) -> int {
    if worker >= start {
        worker - start
    } else {
        worker - start + n
    }
}

proof fn lemma_cyclic_order(p: spec_fn(int) -> bool, start: int, n: int, d: int)
    requires
        0 <= start < n,
        0 <= d,
    ensures
        forall|i: int|
            0 <= i < cyclic(p, start, n, d).len() ==> 0 <= #[trigger] cyclic(p, start, n, d)[i] < n
                && d <= distance(start, cyclic(p, start, n, d)[i], n),
        forall|i: int, j: int|
            0 <= i < j < cyclic(p, start, n, d).len() ==> distance(
                start,
                #[trigger] cyclic(p, start, n, d)[i],
                n,
            ) < distance(start, #[trigger] cyclic(p, start, n, d)[j], n),
    decreases n - d,
{
    if d < n {
        lemma_cyclic_order(p, start, n, d + 1);
        lemma_cyclic_index(start, d, n);
        let rest = cyclic(p, start, n, d + 1);
        let all = cyclic(p, start, n, d);
        if p(d) {
            assert forall|i: int| 0 <= i < all.len() implies 0 <= #[trigger] all[i] < n && d
                <= distance(start, all[i], n) by {
                if i > 0 {
                    assert(all[i] == rest[i - 1]);
                }
            }
            assert forall|i: int, j: int| 0 <= i < j < all.len() implies distance(
                start,
                #[trigger] all[i],
                n,
            ) < distance(start, #[trigger] all[j], n) by {
                assert(all[j] == rest[j - 1]);
                if i > 0 {
                    assert(all[i] == rest[i - 1]);
                }
            }
        }
    }
}

/// What remains the same when the activity of a worker, or of several ones, changes.
pub proof fn law_unaffected_workers(
    registry: PoolRegistry,
    old_registry: PoolRegistry,
    worker: int,
    other: int,
    manager: PoolManager,
    old_manager: PoolManager,
)
    ensures
        registry.only_differs_at(old_registry, worker) ==> registry.size() == old_registry.size()
            && (other != worker ==> registry.active(other) == old_registry.active(other)),
        manager.only_registry_differs(old_manager) ==> manager.searching()
            == old_manager.searching() && manager.terminating() == old_manager.terminating()
            && manager.panic() == old_manager.panic() && manager.registry().size()
            == old_manager.registry().size() && manager.registry().record()
            == old_manager.registry().record(),
{
}

} // verus!
