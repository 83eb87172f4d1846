//! Workers with access to global executor resources.

use vstd::arithmetic::power2::{lemma2_to64, pow2};
use vstd::prelude::*;

use super::injector::{lemma_total_with_task, with_task, Bucket, Injector};
use super::pool::PoolManager;
use super::queue::Queue;
use crate::util::ring::is_buffer_capacity;
use crate::util::tally::{lemma_multiset_push, lemma_multiset_split, lemma_total_push, total};

verus! {

/// A local queue.
pub type LocalQueue<T> = Queue<T, 256>;

/// Shared executor context.
pub struct ExecutorContext<T> {
    /// Injector queue.
    pub injector: Injector<T, 128>,
    /// Unique executor ID inherited by all tasks spawned on this executor
    /// instance.
    pub executor_id: usize,
    /// Manager for all worker threads.
    pub pool_manager: PoolManager,
}

impl<T> ExecutorContext<T> {
    /// The invariant of the context.
    pub open spec fn wf(self) -> bool {
        self.injector.wf() && self.pool_manager.wf()
    }
}

/// A local worker.
pub struct Worker<T> {
    /// Tasks that other workers can steal.
    pub local_queue: LocalQueue<T>,
    /// The task that was scheduled last.
    pub fast_slot: Option<T>,
}

impl<T> Worker<T> {
    /// The invariant of the worker.
    pub open spec fn wf(self) -> bool {
        self.local_queue.wf()
    }

    /// The tasks of the worker.
    pub open spec fn tasks(self) -> Seq<T> {
        match self.fast_slot {
            Some(task) => self.local_queue.items().push(task),
            None => self.local_queue.items(),
        }
    }

    /// Creates a worker without any task.
    pub fn new() -> (worker: Self)
        ensures
            worker.wf(),
            !worker.local_queue.busy(),
            worker.fast_slot is None,
            worker.local_queue.items() == Seq::<T>::empty(),
            worker.tasks() == Seq::<T>::empty(),
    {
        proof {
            lemma_local_capacity();
        }
        Worker { local_queue: Queue::new(), fast_slot: None }
    }

    /// Takes the task in the fast slot or else the oldest task of the local
    /// queue.
    pub fn next_task(&mut self) -> (task: Option<T>)
        requires
            old(self).wf(),
        ensures
            final(self).wf(),
            final(self).local_queue.stolen() == old(self).local_queue.stolen(),
            match old(self).fast_slot {
                Some(slot_task) => {
                    &&& task == Some(slot_task)
                    &&& final(self).fast_slot is None
                    &&& final(self).local_queue == old(self).local_queue
                },
                None => {
                    &&& final(self).fast_slot is None
                    &&& old(self).local_queue.items().len() == 0 ==> task is None
                        && final(self).local_queue == old(self).local_queue
                    &&& old(self).local_queue.items().len() > 0 ==> task == Some(
                        old(self).local_queue.items()[0],
                    ) && final(self).local_queue.items() == old(
                        self).local_queue.items().drop_first()
                },
            },
            task is None <==> old(self).tasks().len() == 0,
            task is Some ==> final(self).tasks().to_multiset().insert(task->Some_0) == old(
                self).tasks().to_multiset(),
    {
        let ghost before = *self;
        match self.fast_slot.take() {
            Some(task) => {
                proof {
                    lemma_multiset_push(before.local_queue.items(), task);
                }
                Some(task)
            },
            None => {
                let task = self.local_queue.pop();
                proof {
                    let items = before.local_queue.items();
                    if items.len() > 0 {
                        items.to_multiset_ensures();
                        assert(items.remove(0) =~= items.drop_first());
                        assert(items.drop_first().to_multiset().insert(items[0])
                            =~= items.to_multiset()) by {
                            broadcast use vstd::multiset::group_multiset_axioms;
                            assert(items.contains(items[0]));
                            assert(items.to_multiset().count(items[0]) > 0);
                        }
                    }
                }
                task
            },
        }
    }
}

/// The capacity of a local queue is a power of two.
pub proof fn lemma_local_capacity()
    ensures
        is_buffer_capacity(256),
{
    lemma2_to64();
    assert(pow2(8) == 256);
}

/// The number of items that makes a bucket.
fn bucket_size(_available: usize) -> (count: usize)
    ensures
        count == 128,
{
    Bucket::<u8, 128>::capacity()
}

/// What becomes of a worker and of the injector queue when a task is
/// scheduled.
///
/// The task goes into the fast slot. The task that was in there, if any, moves
/// to the local queue. If the latter is full, half of it first moves to the
/// injector queue; if this is not possible because items are being stolen, the
/// task itself moves to the injector queue.
pub open spec fn scheduled<T>(
    before: Worker<T>,
    buckets_before: Seq<Seq<T>>,
    task: T,
    after: Worker<T>,
    buckets_after: Seq<Seq<T>>,
) -> bool {
    let items = before.local_queue.items();
    &&& after.fast_slot == Some(task)
    &&& match before.fast_slot {
        None => {
            &&& after.local_queue.items() == items
            &&& buckets_after == buckets_before
        },
        Some(prev_task) => if before.local_queue.used() < 256 {
            &&& after.local_queue.items() == items.push(prev_task)
            &&& buckets_after == buckets_before
        } else if !before.local_queue.busy() {
            &&& after.local_queue.items() == items.skip(128).push(prev_task)
            &&& buckets_after == buckets_before.push(items.take(128))
        } else {
            &&& after.local_queue.items() == items
            &&& buckets_after == with_task(buckets_before, prev_task, 128)
        },
    }
}

/// Scheduling a task neither loses nor duplicates any task.
pub proof fn law_scheduling_conserves_tasks<T>(
    before: Worker<T>,
    buckets_before: Seq<Seq<T>>,
    task: T,
    after: Worker<T>,
    buckets_after: Seq<Seq<T>>,
)
    requires
        before.wf(),
        after.wf(),
        scheduled(before, buckets_before, task, after, buckets_after),
    ensures
        after.tasks().to_multiset().add(total(buckets_after)) == before.tasks().to_multiset().add(
            total(buckets_before),
        ).insert(task),
{
    broadcast use vstd::multiset::group_multiset_axioms;

    let items = before.local_queue.items();
    lemma_multiset_push(after.local_queue.items(), task);
    if before.fast_slot is Some {
        let prev_task = before.fast_slot->Some_0;
        lemma_multiset_push(items, prev_task);
        before.local_queue.law_bounded();
        if before.local_queue.used() < 256 {
        } else if !before.local_queue.busy() {
            lemma_multiset_push(items.skip(128), prev_task);
            lemma_multiset_split(items, 128);
            lemma_total_push(buckets_before, items.take(128));
        } else {
            lemma_total_with_task(buckets_before, prev_task, 128);
        }
    }
    assert(after.tasks().to_multiset().add(total(buckets_after)) =~= before.tasks().to_multiset().add(
        total(buckets_before),
    ).insert(task));
}

/// Schedules a task from within a worker thread.
///
/// The task must have been spawned on the executor of the worker. The ID of a
/// worker that must be unparked, if any, is returned: once a task has been
/// moved to the local or injector queue, another worker is activated unless
/// some worker is currently searching for a task.
pub fn schedule_task<T>(
    task: T,
    executor_id: usize,
    worker: &mut Worker<T>,
    context: &mut ExecutorContext<T>,
) -> (unparked: Option<usize>)
    requires
        old(worker).wf(),
        old(context).wf(),
        executor_id == old(context).executor_id,
    ensures
        final(worker).wf(),
        final(worker).local_queue.stolen() == old(worker).local_queue.stolen(),
        final(context).wf(),
        final(context).executor_id == old(context).executor_id,
        scheduled(
            *old(worker),
            old(context).injector@,
            task,
            *final(worker),
            final(context).injector@,
        ),
        if old(worker).fast_slot is Some && old(context).pool_manager.searching() == 0 {
            PoolManager::activated(
                old(context).pool_manager,
                unparked,
                final(context).pool_manager,
            )
        } else {
            &&& unparked is None
            &&& final(context).pool_manager == old(context).pool_manager
        },
{
    // Store the task in the fast slot and retrieve the one that was formerly
    // stored, if any.
    let prev_task = match worker.fast_slot.take() {
        Some(prev_task) => {
            worker.fast_slot = Some(task);
            prev_task
        },
        None => {
            // A lone task cannot be stolen so there is no point in activating a
            // sibling worker.
            worker.fast_slot = Some(task);
            return None;
        },
    };
    proof {
        worker.local_queue.law_bounded();
    }

    // Push the previous task to the local queue if possible or on the injector
    // queue otherwise.
    if let Err(prev_task) = worker.local_queue.push(prev_task) {
        // The local queue is full. Try to move half of it to the injector queue;
        // if this fails, just push one task to the injector queue.
        match worker.local_queue.drain(bucket_size) {
            Ok(drain) => {
                let bucket = Bucket::from_tasks(worker.local_queue.drain_all(drain));
                context.injector.push_bucket(bucket);
                proof {
                    worker.local_queue.law_bounded();
                }
                let _ = worker.local_queue.push(prev_task);
            },
            Err(_) => {
                context.injector.insert_task(prev_task);
            },
        }
    }

    // A task has been pushed to the local or injector queue: try to activate
    // another worker if no worker is currently searching for a task.
    if context.pool_manager.searching_worker_count() == 0 {
        context.pool_manager.activate_worker_relaxed()
    } else {
        None
    }
}

/// A task that is scheduled is the next one that its worker takes, and the task that
/// was to be taken next comes behind all tasks of the local queue. If there is no room
/// left, the oldest half of the local queue makes room for it as a whole bucket, or
/// else the task is inserted on its own in the injector queue.
pub proof fn law_scheduled_task<T>(
    before: Worker<T>,
    buckets_before: Seq<Seq<T>>,
    task: T,
    after: Worker<T>,
    buckets_after: Seq<Seq<T>>,
)
    requires
        scheduled(before, buckets_before, task, after, buckets_after),
    ensures
        after.fast_slot == Some(task),
        before.fast_slot is None || before.local_queue.used() < 256 ==> buckets_after
            == buckets_before,
        before.fast_slot is None ==> after.local_queue.items() == before.local_queue.items(),
        before.fast_slot matches Some(previous) ==> {
            let items = before.local_queue.items();
            &&& before.local_queue.used() < 256 ==> after.local_queue.items() == items + seq![
                previous,
            ]
            &&& before.local_queue.used() >= 256 && !before.local_queue.busy() && items.len() >= 128
                ==> buckets_after.len() == buckets_before.len() + 1 && buckets_after.drop_last()
                == buckets_before && buckets_after.last().len() == 128 && buckets_after.last()
                + after.local_queue.items() == items + seq![previous]
            &&& before.local_queue.used() >= 256 && before.local_queue.busy()
                ==> after.local_queue.items() == items && buckets_after == with_task(
                buckets_before,
                previous,
                128,
            )
        },
{
    if let Some(previous) = before.fast_slot {
        let items = before.local_queue.items();
        assert(items.push(previous) =~= items + seq![previous]);
        if before.local_queue.used() >= 256 && !before.local_queue.busy() && items.len() >= 128 {
            assert(buckets_before.push(items.take(128)).drop_last() =~= buckets_before);
            assert(items.take(128) + items.skip(128).push(previous) =~= items + seq![previous]);
        }
    }
}

} // verus!
