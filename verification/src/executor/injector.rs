//! An unfair injector queue which stores batches of tasks in bounded-size
//! buckets.
//!
//! The queue is not strictly LIFO. While buckets are indeed pushed and popped
//! in LIFO order, individual tasks are stored in a bucket at the front of the
//! queue and this bucket is only moved to the back of the queue when full.

use vstd::multiset::Multiset;
use vstd::prelude::*;

use crate::util::tally::{
    lemma_cancel, lemma_multiset_push, lemma_total_push, lemma_total_update, total,
};

verus! {

/// A collection of tasks with a bounded size.
pub struct Bucket<T, const CAPACITY: usize>(Vec<T>);

impl<T, const CAPACITY: usize> View for Bucket<T, CAPACITY> {
    type V = Seq<T>;

    /// The tasks in the bucket, in the order in which they were added.
    closed spec fn view(&self) -> Seq<T> {
        self.0@
    }
}

impl<T, const CAPACITY: usize> Bucket<T, CAPACITY> {
    /// The capacity bound is never exceeded.
    pub open spec fn wf(self) -> bool {
        self@.len() <= CAPACITY
    }

    /// Creates a new bucket.
    pub fn new() -> (bucket: Self)
        ensures
            bucket.wf(),
            bucket@ == Seq::<T>::empty(),
    {
        Bucket(Vec::new())
    }

    /// Returns the bucket's nominal capacity.
    pub fn capacity() -> (capacity: usize)
        ensures
            capacity == CAPACITY,
    {
        CAPACITY
    }

    /// Appends one task if capacity allows; otherwise returns the task in the
    /// error.
    pub fn push(&mut self, task: T) -> (r: Result<(), T>)
        requires
            old(self).wf(),
        ensures
            final(self).wf(),
            old(self)@.len() < CAPACITY ==> r is Ok && final(self)@ == old(self)@.push(task),
            old(self)@.len() >= CAPACITY ==> r == Err::<(), T>(task) && final(self)@ == old(
                self)@,
    {
        if self.0.len() < CAPACITY {
            self.0.push(task);
            Ok(())
        } else {
            Err(task)
        }
    }

    /// Creates a bucket from the first tasks of a collection, as many as
    /// capacity allows.
    pub fn from_tasks(tasks: Vec<T>) -> (bucket: Self)
        ensures
            bucket.wf(),
            bucket@ == (if tasks@.len() <= CAPACITY {
                tasks@
            } else {
                tasks@.take(CAPACITY as int)
            }),
    {
        let mut tasks = tasks;
        tasks.truncate(CAPACITY);
        Bucket(tasks)
    }

    /// Returns the tasks in the bucket.
    pub fn into_tasks(self) -> (tasks: Vec<T>)
        ensures
            tasks@ == self@,
    {
        self.0
    }
}

/// An injector queue.
///
/// As an optimization, an `is_empty` flag allows workers seeking for tasks to
/// skip looking at the queue.
pub struct Injector<T, const BUCKET_CAPACITY: usize> {
    inner: Vec<Bucket<T, BUCKET_CAPACITY>>,
    is_empty: bool,
}

impl<T, const BUCKET_CAPACITY: usize> View for Injector<T, BUCKET_CAPACITY> {
    type V = Seq<Seq<T>>;

    /// The tasks of each bucket, from the front to the back of the queue.
    closed spec fn view(&self) -> Seq<Seq<T>> {
        self.inner@.map_values(|bucket: Bucket<T, BUCKET_CAPACITY>| bucket@)
    }
}

/// The buckets of an injector queue after a task was inserted.
pub open spec fn with_task<T>(buckets: Seq<Seq<T>>, task: T, capacity: nat) -> Seq<Seq<T>> {
    if buckets.len() == 0 {
        seq![seq![task]]
    } else if buckets[0].len() < capacity {
        buckets.update(0, buckets[0].push(task))
    } else {
        buckets.update(0, seq![task]).push(buckets[0])
    }
}

/// Whether all buckets contain some task.
pub open spec fn no_empty_bucket<T>(buckets: Seq<Seq<T>>) -> bool {
    forall|i: int| 0 <= i < buckets.len() ==> (#[trigger] buckets[i]).len() > 0
}

impl<T, const BUCKET_CAPACITY: usize> Injector<T, BUCKET_CAPACITY> {
    /// The invariant of the queue.
    pub closed spec fn wf(self) -> bool {
        &&& BUCKET_CAPACITY >= 1
        &&& self.is_empty == (self.inner@.len() == 0)
        &&& forall|i: int| 0 <= i < self.inner@.len() ==> (#[trigger] self.inner@[i]).wf()
    }

    /// No bucket exceeds its capacity.
    pub proof fn law_bounded(self)
        requires
            self.wf(),
        ensures
            forall|i: int| 0 <= i < self@.len() ==> (#[trigger] self@[i]).len() <= BUCKET_CAPACITY,
    {
        assert forall|i: int| 0 <= i < self@.len() implies (#[trigger] self@[i]).len()
            <= BUCKET_CAPACITY by {
            assert(self.inner@[i].wf());
        }
    }

    /// Creates an empty injector queue.
    ///
    /// The capacity of the buckets must be at least 1.
    pub fn new() -> (injector: Self)
        requires
            BUCKET_CAPACITY >= 1,
        ensures
            injector.wf(),
            injector@ == Seq::<Seq<T>>::empty(),
    {
        let injector = Injector { inner: Vec::new(), is_empty: true };
        assert(injector@ =~= Seq::<Seq<T>>::empty());
        injector
    }

    /// Inserts a task.
    ///
    /// The task is inserted in a bucket at the front of the queue. Once this
    /// bucket is full, it is moved to the back of the queue.
    pub fn insert_task(&mut self, task: T)
        requires
            old(self).wf(),
        ensures
            final(self).wf(),
            final(self)@ == with_task(old(self)@, task, BUCKET_CAPACITY as nat),
    {
        // Try to push the task onto the first bucket if it has enough capacity
        // left.
        if self.inner.len() > 0 {
            assert(self.inner@[0].wf());
            let ghost buckets = self.inner@;
            let first = &mut self.inner[0];
            let refused = first.push(task);
            if let Err(task) = refused {
                // The bucket is full: move it to the back of the vector and
                // replace it with a newly created bucket that contains the
                // task.
                let mut bucket = Bucket::new();
                let _ = bucket.push(task);
                std::mem::swap(&mut self.inner[0], &mut bucket);
                self.inner.push(bucket);
                proof {
                    assert(self@[0] =~= seq![task]);
                    assert(self@ =~= with_task(old(self)@, task, BUCKET_CAPACITY as nat));
                }
            } else {
                assert(self@ =~= with_task(old(self)@, task, BUCKET_CAPACITY as nat));
            }
            return;
        }

        // The queue is empty: create a new bucket.
        let mut bucket = Bucket::new();
        let _ = bucket.push(task);
        self.inner.push(bucket);
        self.is_empty = false;
        proof {
            assert(self@[0] =~= seq![task]);
            assert(self@ =~= with_task(old(self)@, task, BUCKET_CAPACITY as nat));
        }
    }

    /// Appends a bucket to the back of the queue.
    pub fn push_bucket(&mut self, bucket: Bucket<T, BUCKET_CAPACITY>)
        requires
            old(self).wf(),
            bucket.wf(),
        ensures
            final(self).wf(),
            final(self)@ == old(self)@.push(bucket@),
    {
        let was_empty = self.inner.len() == 0;
        self.inner.push(bucket);

        // If the queue was empty before, update the flag.
        if was_empty {
            self.is_empty = false;
        }
        assert(self@ =~= old(self)@.push(bucket@));
    }

    /// Takes the bucket at the back of the queue, if any.
    pub fn pop_bucket(&mut self) -> (bucket: Option<Bucket<T, BUCKET_CAPACITY>>)
        requires
            old(self).wf(),
        ensures
            final(self).wf(),
            old(self)@.len() == 0 ==> bucket is None && *final(self) == *old(self),
            old(self)@.len() > 0 ==> {
                &&& bucket is Some
                &&& bucket->Some_0@ == old(self)@.last()
                &&& bucket->Some_0.wf()
                &&& final(self)@ == old(self)@.drop_last()
            },
    {
        if self.is_empty {
            return None;
        }
        let bucket = self.inner.pop();
        if self.inner.len() == 0 {
            self.is_empty = true;
        }
        assert(self@ =~= old(self)@.drop_last());
        assert(old(self).inner@[old(self).inner@.len() - 1].wf());
        bucket
    }

    /// Checks whether the queue is empty.
    pub fn is_empty(&self) -> (r: bool)
        requires
            self.wf(),
        ensures
            r == (self@.len() == 0),
    {
        self.is_empty
    }
}

/// Inserting a task in an injector queue adds it.
pub proof fn lemma_total_with_task<T>(buckets: Seq<Seq<T>>, task: T, capacity: nat)
    ensures
        total(with_task(buckets, task, capacity)) == total(buckets).insert(task),
{
    broadcast use vstd::multiset::group_multiset_axioms;

    let single = seq![task];
    assert(single =~= Seq::<T>::empty().push(task));
    lemma_multiset_push(Seq::<T>::empty(), task);
    Seq::<T>::empty().to_multiset_ensures();
    assert(single.to_multiset() =~= Multiset::singleton(task));
    if buckets.len() == 0 {
        assert(seq![single] =~= buckets.push(single));
        lemma_total_push(buckets, single);
        assert(total(with_task(buckets, task, capacity)) =~= total(buckets).insert(task));
    } else if buckets[0].len() < capacity {
        lemma_multiset_push(buckets[0], task);
        lemma_total_update(buckets, 0, buckets[0].push(task));
        lemma_cancel(
            total(with_task(buckets, task, capacity)),
            total(buckets).insert(task),
            buckets[0].to_multiset(),
        );
    } else {
        lemma_total_update(buckets, 0, single);
        lemma_total_push(buckets.update(0, single), buckets[0]);
        assert(total(with_task(buckets, task, capacity)) =~= total(buckets).insert(task));
    }
}

/// A call on an injector queue.
pub ghost enum Call<T> {
    /// The insertion of a task.
    Insert(T),
    /// The insertion of a bucket with the given tasks.
    Push(Seq<T>),
    /// The removal of a bucket with the given tasks, if there is any.
    Pop(Option<Seq<T>>),
}

/// The tasks that were put into a queue by a succession of calls.
pub open spec fn put_in<T>(calls: Seq<Call<T>>) -> Multiset<T>
    decreases calls.len(),
{
    if calls.len() == 0 {
        Multiset::empty()
    } else {
        let others = put_in(calls.drop_last());
        match calls.last() {
            Call::Insert(task) => others.insert(task),
            Call::Push(tasks) => others.add(tasks.to_multiset()),
            Call::Pop(_) => others,
        }
    }
}

/// The tasks that were taken out of a queue by a succession of calls.
pub open spec fn taken_out<T>(calls: Seq<Call<T>>) -> Multiset<T>
    decreases calls.len(),
{
    if calls.len() == 0 {
        Multiset::empty()
    } else {
        let others = taken_out(calls.drop_last());
        match calls.last() {
            Call::Pop(Some(tasks)) => others.add(tasks.to_multiset()),
            _ => others,
        }
    }
}

impl<T, const BUCKET_CAPACITY: usize> Injector<T, BUCKET_CAPACITY> {
    /// What a call does to the tasks of a queue.
    pub open spec fn called(before: Self, call: Call<T>, after: Self) -> bool {
        match call {
            Call::Insert(task) => after@ == with_task(before@, task, BUCKET_CAPACITY as nat),
            Call::Push(tasks) => after@ == before@.push(tasks),
            Call::Pop(Some(tasks)) => {
                &&& before@.len() > 0
                &&& tasks == before@.last()
                &&& after@ == before@.drop_last()
            },
            Call::Pop(None) => before@.len() == 0 && after@ == before@,
        }
    }

    /// No task is lost or duplicated: whatever calls are made on a queue, the tasks
    /// that are in the queue and those that were taken out are the tasks that were
    /// there at first and those that were put in.
    pub proof fn law_tasks_are_conserved(states: Seq<Self>, calls: Seq<Call<T>>)
        requires
            states.len() == calls.len() + 1,
            forall|i: int| #![trigger calls[i]]
                0 <= i < calls.len() ==> Self::called(states[i], calls[i], states[i + 1]),
        ensures
            total(states.last()@).add(taken_out(calls)) == total(states[0]@).add(put_in(calls)),
        decreases calls.len(),
    {
        broadcast use vstd::multiset::group_multiset_axioms;

        if calls.len() > 0 {
            let earlier = states.drop_last();
            let others = calls.drop_last();
            assert forall|i: int| #![trigger others[i]] 0 <= i < others.len() implies Self::called(
                earlier[i],
                others[i],
                earlier[i + 1],
            ) by {
                assert(others[i] == calls[i]);
            }
            Self::law_tasks_are_conserved(earlier, others);
            let before = earlier.last()@;
            assert(calls[calls.len() - 1] == calls.last());
            match calls.last() {
                Call::Insert(task) => {
                    lemma_total_with_task(before, task, BUCKET_CAPACITY as nat);
                },
                Call::Push(tasks) => {
                    lemma_total_push(before, tasks);
                },
                Call::Pop(Some(tasks)) => {
                    assert(before =~= before.drop_last().push(tasks));
                    lemma_total_push(before.drop_last(), tasks);
                },
                Call::Pop(None) => {},
            }
            assert(earlier[0] == states[0]);
            assert forall|task: T| #[trigger]
                total(states.last()@).add(taken_out(calls)).count(task) == total(states[0]@).add(
                    put_in(calls),
                ).count(task) by {
                assert(total(before).add(taken_out(others)).count(task) == total(
                    states[0]@,
                ).add(put_in(others)).count(task));
            }
        }
        assert(total(states.last()@).add(taken_out(calls)) =~= total(states[0]@).add(
            put_in(calls),
        ));
    }
}

/// An inserted task comes last in the first bucket. If this bucket is full, it becomes
/// the last one, and the task makes up the first bucket by itself. All other buckets
/// remain as they are.
pub proof fn law_inserted_task<T>(buckets: Seq<Seq<T>>, task: T, capacity: nat)
    requires
        capacity > 0,
    ensures
        with_task(buckets, task, capacity).len() > 0,
        with_task(buckets, task, capacity)[0].last() == task,
        buckets.len() == 0 ==> with_task(buckets, task, capacity) == seq![seq![task]],
        buckets.len() > 0 && buckets[0].len() < capacity ==> with_task(buckets, task, capacity)
            == seq![buckets[0] + seq![task]] + buckets.subrange(1, buckets.len() as int),
        buckets.len() > 0 && buckets[0].len() >= capacity ==> with_task(buckets, task, capacity)
            == seq![seq![task]] + buckets.subrange(1, buckets.len() as int) + seq![buckets[0]],
{
    if buckets.len() > 0 {
        assert(buckets[0].push(task) =~= buckets[0] + seq![task]);
        if buckets[0].len() < capacity {
            assert(with_task(buckets, task, capacity) =~= seq![buckets[0] + seq![task]]
                + buckets.subrange(1, buckets.len() as int));
        } else {
            assert(with_task(buckets, task, capacity) =~= seq![seq![task]] + buckets.subrange(
                1,
                buckets.len() as int,
            ) + seq![buckets[0]]);
        }
    }
}

} // verus!
