//! Multi-threaded `async` executor.
//!
//! The executor is exclusively designed for message-passing computational
//! tasks. It uses fixed-size local work-stealing queues with a non-stealable
//! LIFO slot in combination with an injector queue, which injector queue is
//! used both to schedule new tasks and to absorb temporary overflow in the
//! local queues.
//!
//! Another way in which it differs from other `async` executors is that it
//! treats deadlocking as a normal occurrence: the simulation of a system at a
//! given time step makes as much progress as possible until it technically
//! reaches a deadlock.
//!
//! This module takes all decisions; threads, which park, unpark and run tasks
//! as decided, are the responsibility of the caller. The maximum number of
//! worker threads is limited to `usize::BITS`.

pub mod active_tasks;
pub mod injector;
pub mod pool;
pub mod queue;
pub mod rng;
pub mod task;
pub mod worker;

use vstd::multiset::Multiset;
use vstd::prelude::*;

use crate::simulation::model_id::ModelId;
use crate::util::tally::{
    law_total, lemma_cancel, lemma_multiset_push, lemma_multiset_split, lemma_total_push,
    lemma_total_update, total,
};
use active_tasks::ActiveTasks;
use injector::{lemma_total_with_task, Injector};
use pool::PoolManager;
use rng::Rng;
use worker::{
    law_scheduling_conserves_tasks, schedule_task, scheduled, ExecutorContext, Worker,
};

verus! {

/// An error returned upon execution failure.
#[derive(Clone, Copy, Debug, PartialEq, Eq, Structural)]
pub enum ExecutorError {
    /// The execution has stopped although there are unprocessed messages.
    Deadlock,
    /// The execution has not completed within the allocated time.
    Timeout,
    /// A panic was caught while a model was polled. The payload of the panic is
    /// designated by a number.
    Panic(ModelId, u64),
}

/// What the main thread of an executor must do.
#[derive(Clone, Copy, Debug)]
pub enum RunStatus {
    /// Park until unparked by a worker.
    Park,
    /// Return to the caller.
    Done(Result<(), ExecutorError>),
}

/// What a worker thread is doing.
#[derive(Clone, Copy, Debug, PartialEq, Eq, Structural)]
pub enum WorkerPhase {
    /// The worker has nothing to do and is about to park.
    Barrier,
    /// The worker is parked.
    Parked,
    /// The worker searches for tasks.
    Searching,
    /// The worker runs tasks.
    Running,
    /// The worker has returned.
    Terminated,
}

/// What a worker thread tells.
#[derive(Clone, Copy, Debug, PartialEq, Eq, Structural)]
pub enum WorkerEvent {
    /// The thread has started.
    Started,
    /// The thread was unparked.
    Unparked,
    /// The thread is ready to search for tasks; the flag tells whether it has
    /// been searching unsuccessfully for too long.
    Searching(bool),
    /// The thread has run a task.
    TaskDone,
}

/// What a worker thread must do.
pub enum WorkerAction<T> {
    /// Park until unparked.
    Park,
    /// Unpark the main executor thread, then park until unparked.
    ParkLast,
    /// Search for tasks.
    Search,
    /// Run a task.
    Run(T),
    /// Return, dropping the given task if there is one.
    Exit(Option<T>),
}

impl<T> WorkerAction<T> {
    /// The tasks that leave the executor with this action.
    pub open spec fn handed_out(self) -> Multiset<T> {
        match self {
            WorkerAction::Run(task) => Multiset::singleton(task),
            WorkerAction::Exit(Some(task)) => Multiset::singleton(task),
            _ => Multiset::empty(),
        }
    }
}

/// The number of items to be stolen from a sibling.
fn half(available: usize) -> (count: usize)
    ensures
        count == available - available / 2,
{
    available - available / 2
}

/// Steals tasks from a worker on behalf of one that has none, which gets the
/// most recent one in its fast slot.
fn steal_from<T>(victim: &mut Worker<T>, thief: &mut Worker<T>) -> (success: bool)
    requires
        old(victim).wf(),
        !old(victim).local_queue.busy(),
        old(thief).wf(),
        !old(thief).local_queue.busy(),
        old(thief).fast_slot is None,
        old(thief).local_queue.items().len() == 0,
    ensures
        success == (old(victim).local_queue.items().len() > 0),
        !success ==> *final(victim) == *old(victim) && *final(thief) == *old(thief),
        success ==> stolen(*old(victim), *final(victim), *final(thief)),
{
    proof {
        thief.local_queue.law_bounded();
        victim.local_queue.law_bounded();
    }
    let ghost items = victim.local_queue.items();
    match victim.local_queue.steal_and_pop(&mut thief.local_queue, half) {
        Ok(task) => {
            proof {
                let count = (items.len() - victim.local_queue.items().len()) as nat;
                let wanted = choose|wanted: usize| #[trigger]
                    half.ensures((items.len() as usize,), wanted) && count == (if wanted <= 257
                        && wanted <= items.len() {
                        wanted as nat
                    } else if 257 <= items.len() {
                        257
                    } else {
                        items.len()
                    });
                assert(count == items.len() - items.len() / 2);
                assert(thief.local_queue.items() =~= items.take(count - 1));
            }
            thief.fast_slot = Some(task);
            true
        },
        Err(error) => {
            proof {
                if items.len() > 0 {
                    assert(error is Empty);
                    let wanted = choose|wanted: usize| #[trigger]
                        half.ensures((items.len() as usize,), wanted) && 0 == (if wanted <= 257
                            && wanted <= items.len() {
                            wanted as nat
                        } else if 257 <= items.len() {
                            257
                        } else {
                            items.len()
                        });
                    assert(false);
                }
            }
            false
        },
    }
}

/// Whether half of the tasks of the local queue of a worker, rounded up, were
/// moved to one that had no task: the most recent one to the fast slot and all
/// others to the local queue.
pub open spec fn stolen<T>(victim_before: Worker<T>, victim: Worker<T>, thief: Worker<T>) -> bool {
    let items = victim_before.local_queue.items();
    let count = items.len() - items.len() / 2;
    &&& items.len() > 0
    &&& victim.wf()
    &&& !victim.local_queue.busy()
    &&& victim.local_queue.items() == items.skip(count)
    &&& victim.fast_slot == victim_before.fast_slot
    &&& thief.wf()
    &&& !thief.local_queue.busy()
    &&& thief.local_queue.items() == items.take(count - 1)
    &&& thief.fast_slot == Some(items[count - 1])
}

/// Whether one worker stole tasks from another one.
pub open spec fn stolen_between<T>(
    before: Seq<Worker<T>>,
    from: int,
    to: int,
    after: Seq<Worker<T>>,
) -> bool {
    &&& after.len() == before.len()
    &&& stolen(before[from], after[from], after[to])
    &&& forall|i: int|
        0 <= i < before.len() && i != from && i != to ==> #[trigger] after[i] == before[i]
}

/// Steals tasks from one worker on behalf of another one that has none.
fn steal<T>(workers: &mut Vec<Worker<T>>, from: usize, to: usize) -> (success: bool)
    requires
        from < old(workers)@.len(),
        to < old(workers)@.len(),
        from != to,
        old(workers)@[from as int].wf(),
        !old(workers)@[from as int].local_queue.busy(),
        old(workers)@[to as int].wf(),
        !old(workers)@[to as int].local_queue.busy(),
        old(workers)@[to as int].fast_slot is None,
        old(workers)@[to as int].local_queue.items().len() == 0,
    ensures
        success == (old(workers)@[from as int].local_queue.items().len() > 0),
        !success ==> final(workers)@ == old(workers)@,
        success ==> stolen_between(old(workers)@, from as int, to as int, final(workers)@),
{
    if from < to {
        let (head, tail) = workers.as_mut_slice().split_at_mut(to);
        steal_from(&mut head[from], &mut tail[0])
    } else {
        let (head, tail) = workers.as_mut_slice().split_at_mut(from);
        steal_from(&mut tail[0], &mut head[to])
    }
}

/// A multi-threaded `async` executor.
pub struct Executor<T> {
    /// Shared executor data.
    context: ExecutorContext<T>,
    /// The workers.
    workers: Vec<Worker<T>>,
    /// The random number generator of each worker.
    rngs: Vec<Rng>,
    /// What each worker is doing.
    phases: Vec<WorkerPhase>,
    /// List of tasks that have not completed yet.
    active_tasks: ActiveTasks,
}

impl<T> Executor<T> {
    /// Shared executor data.
    pub closed spec fn context(self) -> ExecutorContext<T> {
        self.context
    }

    /// The workers.
    pub closed spec fn workers(self) -> Seq<Worker<T>> {
        self.workers@
    }

    /// The random number generator of each worker.
    pub closed spec fn rngs(self) -> Seq<Rng> {
        self.rngs@
    }

    /// What each worker is doing.
    pub closed spec fn phases(self) -> Seq<WorkerPhase> {
        self.phases@
    }

    /// The cancellation tokens of all tasks that have not completed yet.
    pub closed spec fn active_tasks(self) -> ActiveTasks {
        self.active_tasks
    }

    /// Whether a worker is fit for what it is doing.
    pub open spec fn worker_ok(self, i: int) -> bool {
        let worker = self.workers()[i];
        let phase = self.phases()[i];
        &&& worker.wf()
        &&& !worker.local_queue.busy()
        // Only workers that run tasks have any.
        &&& phase is Barrier || phase is Parked || phase is Searching ==> worker.tasks().len() == 0
        // Workers that are up are registered as active.
        &&& phase is Barrier || phase is Searching || phase is Running
            ==> self.context().pool_manager.registry().active(i)
        // Workers only return upon termination.
        &&& phase is Terminated ==> self.context().pool_manager.terminating()
    }

    /// The invariant of the executor.
    pub closed spec fn wf(self) -> bool {
        &&& self.context.wf()
        &&& injector::no_empty_bucket(self.context.injector@)
        // As long as tasks are waiting for some worker, one is active.
        &&& self.context.pool_manager.registry().idle() ==> self.context.injector@.len() == 0
        &&& self.workers@.len() == self.context.pool_manager.registry().size()
        &&& self.rngs@.len() == self.workers@.len()
        &&& self.phases@.len() == self.workers@.len()
        &&& forall|i: int| 0 <= i < self.workers@.len() ==> #[trigger] self.worker_ok(i)
    }

    /// The tasks of each worker.
    pub open spec fn tasks_by_worker(self) -> Seq<Seq<T>> {
        self.workers().map_values(|worker: Worker<T>| worker.tasks())
    }

    /// All tasks waiting to be run.
    pub open spec fn tasks(self) -> Multiset<T> {
        total(self.tasks_by_worker()).add(total(self.context().injector@))
    }

    /// All workers are fit for what they are doing, and there are no empty buckets
    /// in the injector queue.
    pub proof fn law_workers_ok(self)
        requires
            self.wf(),
        ensures
            self.workers().len() == self.context().pool_manager.registry().size(),
            self.phases().len() == self.workers().len(),
            self.rngs().len() == self.workers().len(),
            forall|i: int| 0 <= i < self.workers().len() ==> #[trigger] self.worker_ok(i),
            injector::no_empty_bucket(self.context().injector@),
    {
    }

    /// When no worker is active, no task is waiting to be run, unless termination
    /// was triggered.
    pub proof fn law_idle_executor_has_no_task(self)
        requires
            self.wf(),
            !self.context().pool_manager.terminating(),
            self.context().pool_manager.registry().idle(),
        ensures
            self.tasks() == Multiset::<T>::empty(),
    {
        broadcast use vstd::multiset::group_multiset_axioms;

        assert forall|i: int| 0 <= i < self.workers@.len() implies (
        #[trigger] self.tasks_by_worker()[i]) == Seq::<T>::empty() by {
            assert(self.worker_ok(i));
            assert(!self.context.pool_manager.registry().active(i));
            assert(self.tasks_by_worker()[i] =~= Seq::<T>::empty());
        }
        lemma_total_empty(self.tasks_by_worker());
        lemma_total_empty(self.context.injector@);
        assert(self.tasks() =~= Multiset::<T>::empty());
    }

    /// Creates an executor with the given number of workers, all of which are
    /// about to start. The random number generator of each worker is seeded with
    /// the ID of the worker.
    ///
    /// The number of threads may not be zero nor more than `usize::BITS`. Each
    /// executor must have its own ID.
    pub fn new(executor_id: usize, num_threads: usize) -> (executor: Self)
        requires
            1 <= num_threads <= usize::BITS,
            executor_id <= usize::MAX / 2,
        ensures
            executor.wf(),
            executor.context().executor_id == executor_id,
            executor.context().injector@ == Seq::<Seq<T>>::empty(),
            !executor.context().pool_manager.terminating(),
            executor.context().pool_manager.panic() is None,
            executor.context().pool_manager.searching() == 0,
            executor.context().pool_manager.registry().record() == Seq::new(
                num_threads as nat,
                |i: int| 0usize,
            ),
            executor.workers().len() == num_threads,
            forall|i: int| 0 <= i < num_threads ==> (#[trigger] executor.phases()[i]) is Barrier,
            executor.rngs().len() == num_threads,
            forall|i: int| 0 <= i < num_threads ==> (#[trigger] executor.rngs()[i]).seed() == i,
            executor.tasks() == Multiset::<T>::empty(),
            executor.active_tasks()@ == active_tasks::no_values(),
    {
        let mut pool_manager = PoolManager::new(num_threads);

        // All workers must be marked as active _before_ spawning the threads to
        // make sure that the count of active workers does not fall to zero
        // before all workers are blocked on the signal barrier.
        pool_manager.set_all_workers_active();
        let mut workers: Vec<Worker<T>> = Vec::new();
        let mut rngs: Vec<Rng> = Vec::new();
        let mut phases: Vec<WorkerPhase> = Vec::new();
        let mut id: usize = 0;
        while id < num_threads
            invariant
                id <= num_threads,
                workers@.len() == id,
                rngs@.len() == id,
                forall|i: int| 0 <= i < id ==> (#[trigger] rngs@[i]).seed() == i,
                phases@.len() == id,
                forall|i: int| 0 <= i < id ==> (#[trigger] phases@[i]) is Barrier,
                forall|i: int|
                    0 <= i < id ==> {
                        &&& (#[trigger] workers@[i]).wf()
                        &&& !workers@[i].local_queue.busy()
                        &&& workers@[i].tasks() == Seq::<T>::empty()
                    },
            decreases num_threads - id,
        {
            workers.push(Worker::new());

            // Seed a thread RNG with the worker ID.
            rngs.push(Rng::new(id as u64));
            phases.push(WorkerPhase::Barrier);
            id += 1;
        }
        let executor = Executor {
            context: ExecutorContext { injector: Injector::new(), executor_id, pool_manager },
            workers,
            rngs,
            phases,
            active_tasks: ActiveTasks::new(),
        };
        proof {
            lemma_total_empty(executor.tasks_by_worker());
            assert(executor.tasks() =~= Multiset::<T>::empty()) by {
                broadcast use vstd::multiset::group_multiset_axioms;
            }
        }
        executor
    }

    /// Whether everything but the injector queue, the pool and the active tasks
    /// is the same in two states of an executor.
    pub open spec fn same_workers(self, other: Self) -> bool {
        &&& self.workers() == other.workers()
        &&& self.rngs() == other.rngs()
        &&& self.phases() == other.phases()
        &&& self.context().executor_id == other.context().executor_id
    }

    /// Returns the key under which the cancellation token of the next task will
    /// be stored.
    pub fn next_cancellation_key(&self) -> (key: usize)
        ensures
            key == self.active_tasks().next_key(),
            !self.active_tasks()@.contains_key(key),
    {
        self.active_tasks.vacant_key()
    }

    /// Spawns a task with the given cancellation token. Its output can be retrieved
    /// with a promise.
    ///
    /// The ID of a worker that must be unparked, if any, is returned.
    pub fn spawn(&mut self, task: T, cancel_token: u64) -> (unparked: Option<usize>)
        requires
            old(self).wf(),
        ensures
            final(self).wf(),
            final(self).same_workers(*old(self)),
            final(self).context().injector@ == injector::with_task(
                old(self).context().injector@,
                task,
                128,
            ),
            final(self).active_tasks()@ == old(self).active_tasks()@.insert(
                old(self).active_tasks().next_key(),
                cancel_token,
            ),
            PoolManager::activated(
                old(self).context().pool_manager,
                unparked,
                final(self).context().pool_manager,
            ),
            final(self).tasks() == old(self).tasks().insert(task),
    {
        let _ = self.active_tasks.insert(cancel_token);
        self.context.injector.insert_task(task);
        let unparked = self.context.pool_manager.activate_worker();
        proof {
            lemma_total_with_task(old(self).context.injector@, task, 128);
            assert(self.tasks() =~= old(self).tasks().insert(task)) by {
                broadcast use vstd::multiset::group_multiset_axioms;
            }
            assert forall|i: int| 0 <= i < self.workers@.len() implies #[trigger] self.worker_ok(
                i,
            ) by {
                assert(old(self).worker_ok(i));
                let before = old(self).context.pool_manager.registry();
                let after = self.context.pool_manager.registry();
                if unparked is Some && unparked->Some_0 != i {
                    assert(after.active(i) == before.active(i));
                }
            }
            self.context.pool_manager.registry().law_members();
            assert(self.context.pool_manager.registry().active(match unparked {
                Some(worker_id) => worker_id as int,
                None => 0,
            }));
        }
        unparked
    }

    /// Spawns a task which output will never be retrieved, with the given
    /// cancellation token.
    ///
    /// The ID of a worker that must be unparked, if any, is returned.
    pub fn spawn_and_forget(&mut self, task: T, cancel_token: u64) -> (unparked: Option<usize>)
        requires
            old(self).wf(),
        ensures
            final(self).wf(),
            final(self).same_workers(*old(self)),
            final(self).context().injector@ == injector::with_task(
                old(self).context().injector@,
                task,
                128,
            ),
            final(self).active_tasks()@ == old(self).active_tasks()@.insert(
                old(self).active_tasks().next_key(),
                cancel_token,
            ),
            PoolManager::activated(
                old(self).context().pool_manager,
                unparked,
                final(self).context().pool_manager,
            ),
            final(self).tasks() == old(self).tasks().insert(task),
    {
        self.spawn(task, cancel_token)
    }

    /// Removes the cancellation token of a task that has completed.
    pub fn forget(&mut self, cancellation_key: usize)
        requires
            old(self).wf(),
        ensures
            final(self).wf(),
            final(self).same_workers(*old(self)),
            final(self).context() == old(self).context(),
            final(self).active_tasks()@ == old(self).active_tasks()@.remove(cancellation_key),
    {
        let _ = self.active_tasks.remove(cancellation_key);
        assert forall|i: int| 0 <= i < self.workers@.len() implies #[trigger] self.worker_ok(i) by {
            assert(old(self).worker_ok(i));
        }
    }

    /// Takes the cancellation tokens of all tasks that have not completed, in
    /// the order of their keys, so that they can be cancelled.
    pub fn cancel_all(&mut self) -> (tokens: Vec<u64>)
        requires
            old(self).wf(),
        ensures
            final(self).wf(),
            final(self).same_workers(*old(self)),
            final(self).context() == old(self).context(),
            final(self).active_tasks()@ == active_tasks::no_values(),
            active_tasks::in_key_order(tokens@, old(self).active_tasks()@),
    {
        let tokens = self.active_tasks.drain();
        assert forall|i: int| 0 <= i < self.workers@.len() implies #[trigger] self.worker_ok(i) by {
            assert(old(self).worker_ok(i));
        }
        tokens
    }

    /// What the main thread must do, given the number of unprocessed messages.
    pub open spec fn run_status(self, unprocessed_messages: usize) -> RunStatus {
        match self.context().pool_manager.panic() {
            Some((model_id, payload)) => RunStatus::Done(
                Err(ExecutorError::Panic(model_id, payload)),
            ),
            None => if !self.context().pool_manager.registry().idle() {
                RunStatus::Park
            } else if unprocessed_messages != 0 {
                RunStatus::Done(Err(ExecutorError::Deadlock))
            } else {
                RunStatus::Done(Ok(()))
            },
        }
    }

    /// Decides whether the main thread must wait for the workers.
    ///
    /// The execution is over if a worker has panicked or if no worker is
    /// active. In the latter case, no task is left to be run unless termination
    /// was triggered, and unprocessed messages are the sign of a deadlock.
    pub fn run(&mut self, unprocessed_messages: usize) -> (status: RunStatus)
        requires
            old(self).wf(),
        ensures
            final(self).wf(),
            final(self).same_workers(*old(self)),
            final(self).active_tasks() == old(self).active_tasks(),
            final(self).context().injector == old(self).context().injector,
            final(self).context().pool_manager.registry() == old(
                self).context().pool_manager.registry(),
            final(self).context().pool_manager.terminating() == old(
                self).context().pool_manager.terminating(),
            final(self).context().pool_manager.searching() == old(
                self).context().pool_manager.searching(),
            final(self).context().pool_manager.panic() is None,
            status == old(self).run_status(unprocessed_messages),
            final(self).tasks() == old(self).tasks(),
            status is Done && old(self).context().pool_manager.panic() is None && !old(
                self).context().pool_manager.terminating() ==> final(self).tasks()
                == Multiset::<T>::empty(),
    {
        let panic = self.context.pool_manager.take_panic();
        assert forall|i: int| 0 <= i < self.workers@.len() implies #[trigger] self.worker_ok(i) by {
            assert(old(self).worker_ok(i));
        }
        if let Some((model_id, payload)) = panic {
            return RunStatus::Done(Err(ExecutorError::Panic(model_id, payload)));
        }
        if self.context.pool_manager.pool_is_idle() {
            proof {
                if !self.context.pool_manager.terminating() {
                    self.law_idle_executor_has_no_task();
                }
            }
            if unprocessed_messages != 0 {
                return RunStatus::Done(Err(ExecutorError::Deadlock));
            }
            return RunStatus::Done(Ok(()));
        }
        RunStatus::Park
    }

    /// Decides whether the main thread must wait further for the workers, once
    /// the allocated time has elapsed or not.
    ///
    /// If the execution should be over but is not, then the termination of all
    /// workers, which must be unparked, is triggered.
    pub fn run_with_timeout(&mut self, unprocessed_messages: usize, timed_out: bool) -> (status:
        RunStatus)
        requires
            old(self).wf(),
        ensures
            final(self).wf(),
            final(self).same_workers(*old(self)),
            final(self).active_tasks() == old(self).active_tasks(),
            final(self).context().injector == old(self).context().injector,
            final(self).context().pool_manager.registry().record() == old(
                self).context().pool_manager.registry().record(),
            final(self).context().pool_manager.searching() == old(
                self).context().pool_manager.searching(),
            final(self).context().pool_manager.panic() is None,
            final(self).tasks() == old(self).tasks(),
            if timed_out && old(self).run_status(unprocessed_messages) is Park {
                &&& status == RunStatus::Done(Err(ExecutorError::Timeout))
                &&& final(self).context().pool_manager.terminating()
                &&& forall|worker: int| #[trigger]
                    final(self).context().pool_manager.registry().active(worker) <==> 0 <= worker
                        < final(self).workers().len()
            } else {
                &&& status == old(self).run_status(unprocessed_messages)
                &&& final(self).context().pool_manager.registry() == old(
                    self).context().pool_manager.registry()
                &&& final(self).context().pool_manager.terminating() == old(
                    self).context().pool_manager.terminating()
                &&& status is Done && old(self).context().pool_manager.panic() is None && !old(
                    self).context().pool_manager.terminating() ==> final(self).tasks()
                    == Multiset::<T>::empty()
            },
    {
        let status = self.run(unprocessed_messages);
        if timed_out {
            if let RunStatus::Park = status {
                self.terminate();
                return RunStatus::Done(Err(ExecutorError::Timeout));
            }
        }
        status
    }

    /// Triggers the termination of all workers, which must be unparked.
    pub fn terminate(&mut self)
        requires
            old(self).wf(),
        ensures
            final(self).wf(),
            final(self).same_workers(*old(self)),
            final(self).active_tasks() == old(self).active_tasks(),
            final(self).context().pool_manager.terminating(),
            final(self).context().pool_manager.panic() == old(self).context().pool_manager.panic(),
            final(self).context().pool_manager.searching() == old(
                self).context().pool_manager.searching(),
            final(self).context().pool_manager.registry().record() == old(
                self).context().pool_manager.registry().record(),
            forall|worker: int| #[trigger]
                final(self).context().pool_manager.registry().active(worker) <==> 0 <= worker
                    < final(self).workers().len(),
            final(self).context().injector == old(self).context().injector,
    {
        self.context.pool_manager.trigger_termination();
        proof {
            self.context.pool_manager.registry().law_members();
            assert(self.context.pool_manager.registry().active(0));
        }
        assert forall|i: int| 0 <= i < self.workers@.len() implies #[trigger] self.worker_ok(i) by {
            assert(old(self).worker_ok(i));
        }
    }

    /// Relays a panic caught in a worker thread and triggers the termination of
    /// all workers, which must be unparked along with the main thread.
    pub fn worker_panicked(&mut self, model_id: ModelId, payload: u64)
        requires
            old(self).wf(),
        ensures
            final(self).wf(),
            final(self).same_workers(*old(self)),
            final(self).active_tasks() == old(self).active_tasks(),
            final(self).context().pool_manager.terminating(),
            final(self).context().pool_manager.searching() == old(
                self).context().pool_manager.searching(),
            final(self).context().pool_manager.registry().record() == old(
                self).context().pool_manager.registry().record(),
            forall|worker: int| #[trigger]
                final(self).context().pool_manager.registry().active(worker) <==> 0 <= worker
                    < final(self).workers().len(),
            final(self).context().pool_manager.panic() == (if old(
                self).context().pool_manager.panic() is None {
                Some((model_id, payload))
            } else {
                old(self).context().pool_manager.panic()
            }),
            final(self).context().injector == old(self).context().injector,
    {
        self.context.pool_manager.register_panic(model_id, payload);
        self.context.pool_manager.trigger_termination();
        proof {
            self.context.pool_manager.registry().law_members();
            assert(self.context.pool_manager.registry().active(0));
        }
        assert forall|i: int| 0 <= i < self.workers@.len() implies #[trigger] self.worker_ok(i) by {
            assert(old(self).worker_ok(i));
        }
    }
}

impl<T> Executor<T> {
    /// Schedules a task that was awaken by the given worker, which runs a task.
    ///
    /// The ID of a worker that must be unparked, if any, is returned.
    pub fn schedule(&mut self, id: usize, task: T) -> (unparked: Option<usize>)
        requires
            old(self).wf(),
            id < old(self).workers().len(),
            old(self).phases()[id as int] is Running,
        ensures
            final(self).wf(),
            final(self).phases() == old(self).phases(),
            final(self).rngs() == old(self).rngs(),
            final(self).active_tasks() == old(self).active_tasks(),
            final(self).context().executor_id == old(self).context().executor_id,
            scheduled(
                old(self).workers()[id as int],
                old(self).context().injector@,
                task,
                final(self).workers()[id as int],
                final(self).context().injector@,
            ),
            final(self).workers() == old(self).workers().update(
                id as int,
                final(self).workers()[id as int],
            ),
            if old(self).workers()[id as int].fast_slot is Some && old(
                self).context().pool_manager.searching() == 0 {
                PoolManager::activated(
                    old(self).context().pool_manager,
                    unparked,
                    final(self).context().pool_manager,
                )
            } else {
                &&& unparked is None
                &&& final(self).context().pool_manager == old(self).context().pool_manager
            },
            final(self).tasks() == old(self).tasks().insert(task),
    {
        assert(self.worker_ok(id as int));
        let executor_id: usize = self.context.executor_id;
        let unparked = schedule_task(
            task,
            executor_id,
            &mut self.workers[id],
            &mut self.context,
        );
        proof {
            let before = old(self).workers@;
            let after = self.workers@;
            assert(after =~= before.update(id as int, after[id as int]));
            before[id as int].local_queue.law_bounded();
            assert(injector::no_empty_bucket(self.context.injector@));
            assert forall|i: int| 0 <= i < after.len() implies #[trigger] self.worker_ok(i) by {
                assert(old(self).worker_ok(i));
                let registry = self.context.pool_manager.registry();
                let old_registry = old(self).context.pool_manager.registry();
                if unparked is Some && unparked->Some_0 != i {
                    assert(registry.active(i) == old_registry.active(i));
                }
            }
            law_scheduling_conserves_tasks(
                before[id as int],
                old(self).context.injector@,
                task,
                after[id as int],
                self.context.injector@,
            );
            assert(self.tasks_by_worker() =~= old(self).tasks_by_worker().update(
                id as int,
                after[id as int].tasks(),
            ));
            lemma_total_update(
                old(self).tasks_by_worker(),
                id as int,
                after[id as int].tasks(),
            );
            assert(self.tasks() == old(self).tasks().insert(task)) by {
                broadcast use vstd::multiset::group_multiset_axioms;
                let old_own = before[id as int].tasks().to_multiset();
                let new_own = after[id as int].tasks().to_multiset();
                let old_all = total(old(self).tasks_by_worker());
                let new_all = total(self.tasks_by_worker());
                let old_in = total(old(self).context.injector@);
                let new_in = total(self.context.injector@);
                assert(new_all.add(old_own) == old_all.add(new_own));
                assert(new_own.add(new_in) == old_own.add(old_in).insert(task));
                assert forall|x: T| #[trigger] self.tasks().count(x) == old(self).tasks().insert(
                    task,
                ).count(x) by {
                    assert(new_all.add(old_own).count(x) == old_all.add(new_own).count(x));
                    assert(new_own.add(new_in).count(x) == old_own.add(old_in).insert(task).count(
                        x,
                    ));
                }
                assert(self.tasks() =~= old(self).tasks().insert(task));
            }
        }
        unparked
    }

    /// Whether only the given worker and what it is doing differs between two
    /// states of an executor, other than the injector queue and the pool.
    pub open spec fn only_worker_differs(self, other: Self, id: int) -> bool {
        &&& self.active_tasks() == other.active_tasks()
        &&& self.context().executor_id == other.context().executor_id
        &&& self.context().pool_manager.terminating() == other.context().pool_manager.terminating()
        &&& self.context().pool_manager.panic() == other.context().pool_manager.panic()
        &&& self.workers().len() == other.workers().len()
        &&& self.phases().len() == other.phases().len()
        &&& forall|i: int|
            0 <= i < other.workers().len() && i != id ==> #[trigger] self.phases()[i]
                == other.phases()[i]
    }

    /// What happens to a worker without tasks at the signal barrier.
    ///
    /// The worker parks unless it is the last active worker and there are tasks
    /// in the injector queue.
    pub open spec fn at_barrier(before: Self, id: int, action: WorkerAction<T>, after: Self) -> bool {
        let old_pool = before.context().pool_manager;
        let pool = after.context().pool_manager;
        &&& after.only_worker_differs(before, id)
        &&& after.workers() == before.workers()
        &&& after.rngs() == before.rngs()
        &&& after.context().injector == before.context().injector
        &&& pool.registry().record() == old_pool.registry().record()
        &&& if !old_pool.registry().last_active(id) {
            &&& action is Park
            &&& after.phases()[id] is Parked
            &&& pool.registry().only_differs_at(old_pool.registry(), id)
            &&& !pool.registry().active(id)
            &&& pool.searching() == old_pool.searching()
        } else if before.context().injector@.len() == 0 {
            &&& action is ParkLast
            &&& after.phases()[id] is Parked
            &&& pool.registry().idle()
            &&& pool.searching() == old_pool.searching()
        } else {
            &&& pool.registry() == old_pool.registry()
            &&& pool.searching() == pool::wrapped_sum(old_pool.searching(), 1)
            &&& if old_pool.terminating() {
                action == WorkerAction::<T>::Exit(None) && after.phases()[id] is Terminated
            } else {
                action is Search && after.phases()[id] is Searching
            }
        }
    }

    /// Passes the signal barrier.
    fn pass_barrier(&mut self, id: usize) -> (action: WorkerAction<T>)
        requires
            old(self).wf(),
            id < old(self).workers().len(),
            old(self).phases()[id as int] is Barrier,
        ensures
            final(self).wf(),
            Self::at_barrier(*old(self), id as int, action, *final(self)),
    {
        assert(self.worker_ok(id as int));
        let action = if self.context.pool_manager.try_set_worker_inactive(id) {
            self.phases.set(id, WorkerPhase::Parked);
            WorkerAction::Park
        } else if self.context.injector.is_empty() {
            self.context.pool_manager.set_all_workers_inactive();
            self.phases.set(id, WorkerPhase::Parked);
            WorkerAction::ParkLast
        } else {
            self.context.pool_manager.begin_worker_search();
            if self.context.pool_manager.termination_is_triggered() {
                self.phases.set(id, WorkerPhase::Terminated);
                WorkerAction::Exit(None)
            } else {
                self.phases.set(id, WorkerPhase::Searching);
                WorkerAction::Search
            }
        };
        proof {
            let registry = self.context.pool_manager.registry();
            let old_registry = old(self).context.pool_manager.registry();
            assert forall|i: int| 0 <= i < self.workers@.len() implies #[trigger] self.worker_ok(
                i,
            ) by {
                assert(old(self).worker_ok(i));
                if i != id {
                    if old_registry.last_active(id as int) {
                        assert(!old_registry.active(i));
                    } else {
                        assert(registry.active(i) == old_registry.active(i));
                    }
                }
            }
            if !old_registry.last_active(id as int) {
                let other = choose|w: int| #[trigger] old_registry.active(w) && w != id;
                assert(registry.active(other));
            } else if self.context.injector@.len() > 0 {
                assert(registry.active(id as int));
            }
        }
        action
    }

    /// What happens to a worker that takes its next task.
    ///
    /// The task in the fast slot comes first. When it has no task, the worker
    /// begins to search for tasks.
    pub open spec fn takes_task(before: Self, id: int, action: WorkerAction<T>, after: Self) -> bool {
        let worker = before.workers()[id];
        let old_pool = before.context().pool_manager;
        let pool = after.context().pool_manager;
        &&& after.only_worker_differs(before, id)
        &&& after.rngs() == before.rngs()
        &&& after.context().injector == before.context().injector
        &&& pool.registry() == old_pool.registry()
        &&& after.workers() == before.workers().update(id, after.workers()[id])
        &&& if worker.tasks().len() == 0 {
            &&& action is Search
            &&& after.phases()[id] is Searching
            &&& after.workers()[id].tasks().len() == 0
            &&& pool.searching() == pool::wrapped_sum(old_pool.searching(), 1)
        } else {
            let task = match worker.fast_slot {
                Some(task) => task,
                None => worker.local_queue.items()[0],
            };
            &&& pool.searching() == old_pool.searching()
            &&& after.workers()[id].fast_slot is None
            &&& after.workers()[id].local_queue.items() == (if worker.fast_slot is Some {
                worker.local_queue.items()
            } else {
                worker.local_queue.items().drop_first()
            })
            &&& if old_pool.terminating() {
                action == WorkerAction::Exit(Some(task)) && after.phases()[id] is Terminated
            } else {
                action == WorkerAction::Run(task) && after.phases()[id] is Running
            }
        }
    }

    /// Takes the next task.
    fn take_task(&mut self, id: usize) -> (action: WorkerAction<T>)
        requires
            old(self).wf(),
            id < old(self).workers().len(),
            old(self).phases()[id as int] is Running,
        ensures
            final(self).wf(),
            Self::takes_task(*old(self), id as int, action, *final(self)),
            final(self).tasks().add(action.handed_out()) == old(self).tasks(),
    {
        assert(self.worker_ok(id as int));
        let task = self.workers[id].next_task();
        let ghost left = self.workers@[id as int];
        let action = match task {
            Some(task) => {
                if self.context.pool_manager.termination_is_triggered() {
                    self.phases.set(id, WorkerPhase::Terminated);
                    WorkerAction::Exit(Some(task))
                } else {
                    self.phases.set(id, WorkerPhase::Running);
                    WorkerAction::Run(task)
                }
            },
            None => {
                self.context.pool_manager.begin_worker_search();
                self.phases.set(id, WorkerPhase::Searching);
                WorkerAction::Search
            },
        };
        proof {
            let before = old(self).workers@;
            assert(self.workers@ =~= before.update(id as int, left));
            assert forall|i: int| 0 <= i < self.workers@.len() implies #[trigger] self.worker_ok(
                i,
            ) by {
                assert(old(self).worker_ok(i));
            }
            assert(self.tasks_by_worker() =~= old(self).tasks_by_worker().update(
                id as int,
                left.tasks(),
            ));
            lemma_total_update(old(self).tasks_by_worker(), id as int, left.tasks());
            let own = before[id as int].tasks();
            if own.len() == 0 {
                assert(left.tasks() =~= own);
            }
            assert(self.tasks().add(action.handed_out()) == old(self).tasks()) by {
                broadcast use vstd::multiset::group_multiset_axioms;
                let old_all = total(old(self).tasks_by_worker());
                let new_all = total(self.tasks_by_worker());
                assert(left.tasks().to_multiset().add(action.handed_out()) =~= own.to_multiset());
                assert forall|x: T| #[trigger] self.tasks().add(action.handed_out()).count(x)
                    == old(self).tasks().count(x) by {
                    assert(new_all.add(own.to_multiset()).count(x) == old_all.add(
                        left.tasks().to_multiset(),
                    ).count(x));
                    assert(left.tasks().to_multiset().add(action.handed_out()).count(x)
                        == own.to_multiset().count(x));
                }
                assert(self.tasks().add(action.handed_out()) =~= old(self).tasks());
            }
        }
        action
    }
}

impl<T> Executor<T> {
    /// Whether there is a task for a worker that has none: in the injector
    /// queue, or in the local queue of another active worker.
    pub open spec fn has_task_for(self, id: int) -> bool {
        ||| self.context().injector@.len() > 0
        ||| exists|victim: int| #[trigger] self.can_rob(victim, id)
    }

    /// Whether a worker can steal from another one.
    pub open spec fn can_rob(self, victim: int, id: int) -> bool {
        &&& victim != id
        &&& 0 <= victim < self.workers().len()
        &&& self.context().pool_manager.registry().active(victim)
        &&& self.workers()[victim].local_queue.items().len() > 0
    }

    /// Whether a worker is the first one that can be robbed in the given order, or
    /// there is none.
    pub open spec fn first_to_rob(self, order: Seq<int>, id: int, victim: Option<int>) -> bool {
        match victim {
            Some(victim) => exists|turn: int|
                0 <= turn < order.len() && #[trigger] order[turn] == victim && self.can_rob(
                    victim,
                    id,
                ) && forall|k: int| 0 <= k < turn ==> !self.can_rob(#[trigger] order[k], id),
            None => forall|k: int|
                0 <= k < order.len() ==> !self.can_rob(#[trigger] order[k], id),
        }
    }

    /// Whether a worker selects a sibling to steal from, if any can be robbed.
    ///
    /// Active siblings are tried in cyclic order, starting from the one selected by
    /// the random number generator of the worker.
    pub open spec fn selects_victim(
        before: Self,
        id: int,
        victim: Option<int>,
        after: Self,
    ) -> bool {
        &&& after.rngs() == before.rngs().update(id, after.rngs()[id])
        &&& exists|order: Seq<int>| #[trigger]
            before.context().pool_manager.visits(
                Some(id as usize),
                before.rngs()[id],
                order,
                after.rngs()[id],
            ) && before.first_to_rob(order, id, victim)
    }

    /// What happens to a worker that finds some tasks.
    ///
    /// The bucket at the back of the injector queue comes first. If there is
    /// none, half of the tasks of another worker are stolen.
    pub open spec fn finds_tasks(before: Self, id: int, after: Self) -> bool {
        let old_pool = before.context().pool_manager;
        let pool = after.context().pool_manager;
        &&& after.only_worker_differs(before, id)
        &&& after.phases()[id] is Running
        &&& pool.registry() == old_pool.registry()
        &&& pool::wrapped_sum(pool.searching(), 1) == old_pool.searching()
        &&& if before.context().injector@.len() > 0 {
            &&& after.context().injector@ == before.context().injector@.drop_last()
            &&& after.rngs() == before.rngs()
            &&& after.workers() == before.workers().update(id, after.workers()[id])
            &&& after.workers()[id].fast_slot is None
            &&& after.workers()[id].local_queue.items() == before.context().injector@.last()
        } else {
            &&& after.context().injector == before.context().injector
            &&& exists|victim: int| #[trigger]
                before.can_rob(victim, id) && Self::selects_victim(before, id, Some(victim), after)
                    && stolen_between(before.workers(), victim, id, after.workers())
        }
    }

    /// Steals tasks from an active sibling, if any has some.
    fn rob_siblings(&mut self, id: usize) -> (success: bool)
        requires
            old(self).wf(),
            id < old(self).workers().len(),
            old(self).phases()[id as int] is Searching,
        ensures
            success == (exists|victim: int| #[trigger] old(self).can_rob(victim, id as int)),
            final(self).context == old(self).context,
            final(self).active_tasks == old(self).active_tasks,
            final(self).phases == old(self).phases,
            final(self).rngs@.len() == old(self).rngs@.len(),
            !success ==> final(self).workers@ == old(self).workers@ && Self::selects_victim(
                *old(self),
                id as int,
                None,
                *final(self),
            ),
            success ==> exists|victim: int| #[trigger]
                old(self).can_rob(victim, id as int) && Self::selects_victim(
                    *old(self),
                    id as int,
                    Some(victim),
                    *final(self),
                ) && stolen_between(old(self).workers@, victim, id as int, final(self).workers@),
    {
        assert(self.worker_ok(id as int));
        let ghost context = self.context;
        let mut stealers = self.context.pool_manager.shuffled_stealers(
            Some(id),
            &mut self.rngs[id],
        );
        let ghost candidates = stealers.remaining();
        let ghost mut visited: int = 0;
        let ghost rngs = self.rngs@;
        proof {
            assert(rngs =~= old(self).rngs@.update(id as int, rngs[id as int]));
            assert(candidates.skip(0) =~= candidates);
        }
        loop
            invariant
                old(self).wf(),
                id < self.workers@.len(),
                self.workers@ == old(self).workers@,
                self.context == old(self).context,
                self.active_tasks == old(self).active_tasks,
                self.phases == old(self).phases,
                self.rngs@ == rngs,
                rngs == old(self).rngs@.update(id as int, rngs[id as int]),
                rngs.len() == old(self).rngs@.len(),
                old(self).context.pool_manager.visits(
                    Some(id),
                    old(self).rngs@[id as int],
                    candidates,
                    rngs[id as int],
                ),
                old(self).phases@[id as int] is Searching,
                stealers.wf(),
                stealers.size() == self.workers@.len(),
                0 <= visited <= candidates.len(),
                stealers.remaining() == candidates.skip(visited),
                forall|worker: int| #[trigger]
                    candidates.contains(worker) <==> old(
                        self).context.pool_manager.registry().active(worker) && Some(id) != Some(
                        worker as usize,
                    ),
                forall|i: int|
                    0 <= i < visited ==> !old(self).can_rob(#[trigger] candidates[i], id as int),
            decreases candidates.len() - visited,
        {
            match stealers.next() {
                Some(victim) => {
                    proof {
                        assert(candidates[visited] == victim);
                        assert(candidates.contains(victim as int));
                        assert(old(self).worker_ok(victim as int));
                        assert(old(self).worker_ok(id as int));
                        assert(candidates.skip(visited).drop_first() =~= candidates.skip(
                            visited + 1,
                        ));
                    }
                    if steal(&mut self.workers, victim, id) {
                        proof {
                            assert(old(self).can_rob(victim as int, id as int));
                            assert(old(self).first_to_rob(
                                candidates,
                                id as int,
                                Some(victim as int),
                            ));
                            assert(old(self).context().pool_manager.visits(
                                Some(id as int as usize),
                                old(self).rngs()[id as int],
                                candidates,
                                self.rngs()[id as int],
                            ));
                            assert(Self::selects_victim(
                                *old(self),
                                id as int,
                                Some(victim as int),
                                *self,
                            ));
                        }
                        return true;
                    }
                    proof {
                        visited = visited + 1;
                    }
                },
                None => {
                    proof {
                        assert forall|victim: int| !#[trigger] old(self).can_rob(
                            victim,
                            id as int,
                        ) by {
                            if old(self).can_rob(victim, id as int) {
                                assert(victim < self.workers.len());
                                assert(candidates.contains(victim));
                                let i = candidates.index_of(victim);
                                assert(candidates[i] == victim);
                            }
                        }
                        assert(old(self).first_to_rob(candidates, id as int, None));
                        assert(old(self).context().pool_manager.visits(
                            Some(id as int as usize),
                            old(self).rngs()[id as int],
                            candidates,
                            self.rngs()[id as int],
                        ));
                        assert(Self::selects_victim(*old(self), id as int, None, *self));
                    }
                    return false;
                },
            }
        }
    }

    /// Finds tasks for a worker that has none, if there are any.
    fn find_tasks(&mut self, id: usize) -> (success: bool)
        requires
            old(self).wf(),
            id < old(self).workers().len(),
            old(self).phases()[id as int] is Searching,
        ensures
            final(self).wf(),
            success == old(self).has_task_for(id as int),
            !success ==> {
                &&& final(self).context() == old(self).context()
                &&& final(self).workers() == old(self).workers()
                &&& final(self).phases() == old(self).phases()
                &&& final(self).active_tasks() == old(self).active_tasks()
                &&& Self::selects_victim(*old(self), id as int, None, *final(self))
            },
            success ==> Self::finds_tasks(*old(self), id as int, *final(self)),
            final(self).tasks() == old(self).tasks(),
    {
        assert(self.worker_ok(id as int));
        // Check the injector queue first.
        if let Some(bucket) = self.context.injector.pop_bucket() {
            let ghost tasks = bucket@;
            proof {
                self.workers@[id as int].local_queue.law_bounded();
            }
            // The local queue is empty so it has enough spare capacity for the
            // bucket.
            self.workers[id].local_queue.extend(bucket.into_tasks());

            // Signal the end of the search so that another worker can be
            // activated when a new task is scheduled.
            self.context.pool_manager.end_worker_search();
            self.phases.set(id, WorkerPhase::Running);
            proof {
                let before = old(self).workers@;
                let after = self.workers@;
                assert(tasks.take(tasks.len() as int) =~= tasks);
                assert(after[id as int].local_queue.items() =~= tasks);
                assert(after =~= before.update(id as int, after[id as int]));
                assert forall|i: int| 0 <= i < after.len() implies #[trigger] self.worker_ok(i) by {
                    assert(old(self).worker_ok(i));
                }
                self.lemma_bucket_conserved(*old(self), id as int);
            }
            return true;
        }
        // The injector queue is empty. Try to steal from active siblings.
        let success = self.rob_siblings(id);
        let ghost robbed = *self;
        if success {
            self.context.pool_manager.end_worker_search();
            self.phases.set(id, WorkerPhase::Running);
            proof {
                let victim = choose|victim: int| #[trigger]
                    old(self).can_rob(victim, id as int) && Self::selects_victim(
                        *old(self),
                        id as int,
                        Some(victim),
                        robbed,
                    ) && stolen_between(old(self).workers@, victim, id as int, self.workers@);
                assert(self.rngs() == robbed.rngs());
                assert(Self::selects_victim(*old(self), id as int, Some(victim), *self));
                assert forall|i: int|
                    0 <= i < self.workers@.len() implies #[trigger] self.worker_ok(i) by {
                    assert(old(self).worker_ok(i));
                    if i == victim {
                        assert(old(self).phases@[i] is Running || old(
                            self).phases@[i] is Terminated);
                    }
                }
                self.lemma_steal_conserved(*old(self), victim, id as int);
            }
        } else {
            proof {
                assert forall|i: int|
                    0 <= i < self.workers@.len() implies #[trigger] self.worker_ok(i) by {
                    assert(old(self).worker_ok(i));
                }
                assert(self.tasks_by_worker() =~= old(self).tasks_by_worker());
            }
        }
        success
    }

    proof fn lemma_bucket_conserved(self, before: Self, id: int)
        requires
            0 <= id < before.workers().len(),
            before.workers()[id].tasks().len() == 0,
            before.context().injector@.len() > 0,
            self.context().injector@ == before.context().injector@.drop_last(),
            self.workers() == before.workers().update(id, self.workers()[id]),
            self.workers()[id].tasks() == before.context().injector@.last(),
        ensures
            self.tasks() == before.tasks(),
    {
        broadcast use vstd::multiset::group_multiset_axioms;

        let buckets = before.context().injector@;
        assert(buckets =~= buckets.drop_last().push(buckets.last()));
        lemma_total_push(buckets.drop_last(), buckets.last());
        assert(self.tasks_by_worker() =~= before.tasks_by_worker().update(
            id,
            self.workers()[id].tasks(),
        ));
        lemma_total_update(before.tasks_by_worker(), id, self.workers()[id].tasks());
        let own = before.workers()[id].tasks();
        own.to_multiset_ensures();
        assert(own =~= Seq::<T>::empty());
        assert(own.to_multiset() =~= Multiset::<T>::empty());
        assert(before.tasks_by_worker()[id] == own);
        assert(total(self.tasks_by_worker()).add(own.to_multiset()) =~= total(
            self.tasks_by_worker(),
        ));
        assert(self.tasks() =~= before.tasks());
    }

    proof fn lemma_steal_conserved(self, before: Self, victim: int, id: int)
        requires
            0 <= id < before.workers().len(),
            before.can_rob(victim, id),
            before.workers()[id].tasks().len() == 0,
            stolen_between(before.workers(), victim, id, self.workers()),
            self.context().injector == before.context().injector,
        ensures
            self.tasks() == before.tasks(),
    {
        broadcast use vstd::multiset::group_multiset_axioms;

        let items = before.workers()[victim].local_queue.items();
        let count = items.len() - items.len() / 2;
        let taken = items.take(count);
        let new_victim = self.workers()[victim];
        let thief = self.workers()[id];
        // The tasks of the thief are those that were taken from the victim.
        assert(taken =~= items.take(count - 1).push(items[count - 1]));
        assert(thief.tasks() == taken);
        lemma_multiset_split(items, count);
        let old_tasks = before.tasks_by_worker();
        let mid_tasks = old_tasks.update(victim, new_victim.tasks());
        assert(self.tasks_by_worker() =~= mid_tasks.update(id, thief.tasks()));
        lemma_total_update(old_tasks, victim, new_victim.tasks());
        lemma_total_update(mid_tasks, id, thief.tasks());
        let own = before.workers()[id].tasks();
        assert(mid_tasks[id] == own);
        own.to_multiset_ensures();
        assert(own =~= Seq::<T>::empty());
        assert(own.to_multiset() =~= Multiset::<T>::empty());
        match before.workers()[victim].fast_slot {
            Some(task) => {
                lemma_multiset_push(items, task);
                lemma_multiset_push(items.skip(count), task);
            },
            None => {},
        }
        assert(before.workers()[victim].tasks().to_multiset() =~= new_victim.tasks().to_multiset().add(
            taken.to_multiset(),
        ));
        let a = total(self.tasks_by_worker());
        let b = total(old_tasks);
        let mid = total(mid_tasks);
        let lost = before.workers()[victim].tasks().to_multiset();
        assert(old_tasks[victim].to_multiset() == lost);
        assert(a.add(own.to_multiset()) =~= a);
        assert(a == mid.add(taken.to_multiset()));
        assert(a.add(lost) =~= mid.add(lost).add(taken.to_multiset()));
        assert(a.add(lost) =~= b.add(lost));
        lemma_cancel(a, b, lost);
    }

    /// Whether a worker can tell the given event.
    pub open spec fn expects(self, id: int, event: WorkerEvent) -> bool {
        match event {
            WorkerEvent::Started => self.phases()[id] is Barrier,
            WorkerEvent::Unparked => self.phases()[id] is Parked,
            WorkerEvent::Searching(_) => self.phases()[id] is Searching,
            WorkerEvent::TaskDone => self.phases()[id] is Running,
        }
    }

    /// What happens to a worker after an event.
    pub open spec fn worker_step(
        before: Self,
        id: int,
        event: WorkerEvent,
        action: WorkerAction<T>,
        after: Self,
    ) -> bool {
        let old_pool = before.context().pool_manager;
        match event {
            WorkerEvent::Started => Self::at_barrier(before, id, action, after),
            WorkerEvent::Unparked => {
                &&& after.only_worker_differs(before, id)
                &&& after.workers() == before.workers()
                &&& after.rngs() == before.rngs()
                &&& after.context() == before.context()
                &&& if old_pool.terminating() {
                    action == WorkerAction::<T>::Exit(None) && after.phases()[id] is Terminated
                } else if !old_pool.registry().active(id) {
                    action is Park && after.phases() == before.phases()
                } else {
                    action is Search && after.phases()[id] is Searching
                }
            },
            WorkerEvent::Searching(timed_out) => if before.has_task_for(id) {
                exists|mid: Self| #[trigger]
                    Self::finds_tasks(before, id, mid) && Self::takes_task(mid, id, action, after)
            } else if timed_out {
                exists|mid: Self| #[trigger]
                    Self::gives_up(before, id, mid) && Self::at_barrier(mid, id, action, after)
            } else {
                &&& action is Search
                &&& after.context() == before.context()
                &&& after.workers() == before.workers()
                &&& after.phases() == before.phases()
                &&& after.active_tasks() == before.active_tasks()
                &&& Self::selects_victim(before, id, None, after)
            },
            WorkerEvent::TaskDone => Self::takes_task(before, id, action, after),
        }
    }

    /// What happens to a worker that stops searching for tasks.
    pub open spec fn gives_up(before: Self, id: int, after: Self) -> bool {
        let old_pool = before.context().pool_manager;
        let pool = after.context().pool_manager;
        &&& after.only_worker_differs(before, id)
        &&& after.workers() == before.workers()
        &&& after.context().injector == before.context().injector
        &&& after.phases()[id] is Barrier
        &&& Self::selects_victim(before, id, None, after)
        &&& pool.registry() == old_pool.registry()
        &&& pool::wrapped_sum(pool.searching(), 1) == old_pool.searching()
    }

    /// Decides what a worker thread must do after an event.
    ///
    /// A worker without tasks parks, unless there may be some tasks that were
    /// added while it was the last active worker. Once unparked, it searches
    /// for tasks in the injector queue and in the queues of its siblings. Tasks
    /// are run one by one until none is left, upon which the search is resumed.
    /// An unsuccessful search goes on for some time before the worker parks
    /// again. Once termination is triggered, a worker that is unparked returns.
    ///
    /// No task is ever lost or duplicated.
    pub fn run_local_worker(&mut self, id: usize, event: WorkerEvent) -> (action: WorkerAction<T>)
        requires
            old(self).wf(),
            id < old(self).workers().len(),
            old(self).expects(id as int, event),
        ensures
            final(self).wf(),
            Self::worker_step(*old(self), id as int, event, action, *final(self)),
            final(self).tasks().add(action.handed_out()) == old(self).tasks(),
    {
        match event {
            WorkerEvent::Started => {
                let action = self.pass_barrier(id);
                proof {
                    self.lemma_same_tasks(*old(self), action);
                }
                action
            },
            WorkerEvent::Unparked => {
                proof {
                    self.context.pool_manager.registry().law_members();
                }
                let active = self.context.pool_manager.is_worker_active(id);
                let action = if self.context.pool_manager.termination_is_triggered() {
                    self.phases.set(id, WorkerPhase::Terminated);
                    WorkerAction::Exit(None)
                } else if !active {
                    WorkerAction::Park
                } else {
                    self.phases.set(id, WorkerPhase::Searching);
                    WorkerAction::Search
                };
                proof {
                    assert forall|i: int|
                        0 <= i < self.workers@.len() implies #[trigger] self.worker_ok(i) by {
                        assert(old(self).worker_ok(i));
                    }
                    self.lemma_same_tasks(*old(self), action);
                }
                action
            },
            WorkerEvent::Searching(timed_out) => {
                if self.find_tasks(id) {
                    let ghost mid = *self;
                    let action = self.take_task(id);
                    assert(Self::finds_tasks(*old(self), id as int, mid));
                    action
                } else if timed_out {
                    // Give up if unsuccessful for too long.
                    let ghost searched = *self;
                    assert(self.worker_ok(id as int));
                    self.context.pool_manager.end_worker_search();
                    self.phases.set(id, WorkerPhase::Barrier);
                    proof {
                        assert forall|i: int|
                            0 <= i < self.workers@.len() implies #[trigger] self.worker_ok(i) by {
                            assert(searched.worker_ok(i));
                        }
                    }
                    let ghost mid = *self;
                    assert(mid.rngs() == searched.rngs());
                    assert(Self::selects_victim(*old(self), id as int, None, mid));
                    let action = self.pass_barrier(id);
                    proof {
                        assert(Self::gives_up(*old(self), id as int, mid));
                        self.lemma_same_tasks(*old(self), action);
                    }
                    action
                } else {
                    // Re-try.
                    let action = WorkerAction::Search;
                    proof {
                        self.lemma_same_tasks(*old(self), action);
                    }
                    action
                }
            },
            WorkerEvent::TaskDone => self.take_task(id),
        }
    }

    /// Termination is never revoked by what a worker does.
    pub proof fn law_termination_is_final(
        before: Self,
        id: int,
        event: WorkerEvent,
        action: WorkerAction<T>,
        after: Self,
    )
        requires
            before.context().pool_manager.terminating(),
            Self::worker_step(before, id, event, action, after),
        ensures
            after.context().pool_manager.terminating(),
    {
    }

    /// Once termination was triggered by [`Executor::terminate`] or by
    /// [`Executor::worker_panicked`], all workers return: a worker that is unparked
    /// returns, and any other worker either returns or parks once it has run its
    /// current task and has searched for tasks for too long. No other task is run.
    pub proof fn law_workers_terminate(
        before: Self,
        id: int,
        event: WorkerEvent,
        action: WorkerAction<T>,
        after: Self,
    )
        requires
            before.wf(),
            0 <= id < before.workers().len(),
            before.expects(id, event),
            before.context().pool_manager.terminating(),
            Self::worker_step(before, id, event, action, after),
        ensures
            event is Unparked ==> action == WorkerAction::<T>::Exit(None),
            match action {
                WorkerAction::Exit(_) => after.phases()[id] is Terminated,
                WorkerAction::Park => after.phases()[id] is Parked,
                WorkerAction::ParkLast => after.phases()[id] is Parked,
                WorkerAction::Search => after.phases()[id] is Searching && (event is TaskDone
                    || event == WorkerEvent::Searching(false)),
                WorkerAction::Run(_) => false,
            },
    {
        if let WorkerEvent::Searching(_) = event {
            if before.has_task_for(id) {
                let mid = choose|mid: Self| #[trigger]
                    Self::finds_tasks(before, id, mid) && Self::takes_task(mid, id, action, after);
                assert(mid.workers()[id].tasks().len() > 0);
            }
        }
    }

    /// What remains the same when tasks are spawned or when the main thread waits, and
    /// when one worker goes on: all other workers keep on with what they do.
    pub proof fn law_unaffected_workers(self, other: Self, id: int, worker: int)
        requires
            0 <= worker < other.workers().len(),
        ensures
            self.same_workers(other) ==> self.workers() == other.workers() && self.rngs()
                == other.rngs() && self.phases() == other.phases()
                && self.context().executor_id == other.context().executor_id,
            self.only_worker_differs(other, id) ==> {
                &&& self.active_tasks() == other.active_tasks()
                &&& self.context().executor_id == other.context().executor_id
                &&& self.context().pool_manager.terminating()
                    == other.context().pool_manager.terminating()
                &&& self.context().pool_manager.panic() == other.context().pool_manager.panic()
                &&& self.workers().len() == other.workers().len()
                &&& self.phases().len() == other.phases().len()
                &&& worker != id ==> self.phases()[worker] == other.phases()[worker]
            },
    {
    }

    /// The execution is over as soon as a worker has panicked, whatever else happens.
    /// Otherwise the main thread waits as long as any worker is active. Once none is,
    /// the execution is a success if and only if no message is left unprocessed.
    pub proof fn law_run_status(self, unprocessed_messages: usize)
        requires
            self.wf(),
        ensures
            match self.run_status(unprocessed_messages) {
                RunStatus::Park => self.context().pool_manager.panic() is None && exists|worker: int|
                    0 <= worker < self.workers().len()
                        && #[trigger] self.context().pool_manager.registry().active(worker),
                RunStatus::Done(Err(ExecutorError::Panic(model_id, payload))) =>
                    self.context().pool_manager.panic() == Some((model_id, payload)),
                RunStatus::Done(Err(ExecutorError::Deadlock)) =>
                    self.context().pool_manager.panic() is None && unprocessed_messages > 0
                        && forall|worker: int|
                        0 <= worker < self.workers().len()
                            ==> !#[trigger] self.context().pool_manager.registry().active(worker),
                RunStatus::Done(Err(ExecutorError::Timeout)) => false,
                RunStatus::Done(Ok(_)) => self.context().pool_manager.panic() is None
                    && unprocessed_messages == 0 && forall|worker: int|
                    0 <= worker < self.workers().len()
                        ==> !#[trigger] self.context().pool_manager.registry().active(worker),
            },
    {
        self.law_workers_ok();
        pool::law_activity(self.context().pool_manager.registry(), 0);
        self.context().pool_manager.registry().law_members();
    }

    /// A worker without tasks parks, unless it is the last active worker and tasks wait
    /// in the injector queue. The last active worker that parks leaves no active worker
    /// behind. All tasks and all other workers remain as they are.
    pub proof fn law_signal_barrier(
        before: Self,
        id: int,
        action: WorkerAction<T>,
        after: Self,
        other: int,
    )
        requires
            before.wf(),
            0 <= id < before.workers().len(),
            0 <= other < before.workers().len(),
            before.phases()[id] is Barrier,
            Self::worker_step(before, id, WorkerEvent::Started, action, after),
        ensures
            ({
                let others_active = exists|worker: int|
                    0 <= worker < before.workers().len() && worker != id
                        && #[trigger] before.context().pool_manager.registry().active(worker);
                let terminating = before.context().pool_manager.terminating();
                &&& action is Park <==> others_active
                &&& action is ParkLast <==> !others_active && before.context().injector@.len() == 0
                &&& action is Search <==> !others_active && before.context().injector@.len() > 0
                    && !terminating
                &&& action == WorkerAction::<T>::Exit(None) <==> !others_active
                    && before.context().injector@.len() > 0 && terminating
                &&& action is Park || action is ParkLast
                    ==> !after.context().pool_manager.registry().active(id)
                &&& action is Search ==> after.context().pool_manager.registry().active(id)
                &&& action is Park || action is ParkLast ==> after.phases()[id] is Parked
                &&& action is Search ==> after.phases()[id] is Searching
                &&& after.context().pool_manager.searching() == if action is Park
                    || action is ParkLast {
                    before.context().pool_manager.searching()
                } else {
                    pool::wrapped_sum(before.context().pool_manager.searching(), 1)
                }
            }),
            after.context().pool_manager.registry().record()
                == before.context().pool_manager.registry().record(),
            after.rngs() == before.rngs(),
            other != id ==> after.context().pool_manager.registry().active(other)
                == before.context().pool_manager.registry().active(other),
            other != id ==> after.phases()[other] == before.phases()[other],
            after.workers() == before.workers(),
            after.context().injector == before.context().injector,
            after.active_tasks() == before.active_tasks(),
    {
        before.law_workers_ok();
        assert(before.worker_ok(id));
        let registry = before.context().pool_manager.registry();
        pool::law_activity(registry, id);
        registry.law_members();
        if registry.last_active(id) {
            assert forall|worker: int|
                0 <= worker < before.workers().len() && worker
                    != id implies !#[trigger] registry.active(worker) by {}
        }
    }

    /// A worker that has run a task runs its most recent task next if it is still in the
    /// fast slot, or else the oldest task of its local queue. If it has none, it begins to
    /// search for tasks. Once termination was triggered, the task is dropped instead.
    /// Nothing changes for any other worker.
    pub proof fn law_next_task(
        before: Self,
        id: int,
        action: WorkerAction<T>,
        after: Self,
        other: int,
    )
        requires
            0 <= id < before.workers().len(),
            0 <= other < before.workers().len(),
            Self::worker_step(before, id, WorkerEvent::TaskDone, action, after),
        ensures
            ({
                let worker = before.workers()[id];
                let queue = worker.local_queue.items();
                let terminating = before.context().pool_manager.terminating();
                match worker.fast_slot {
                    Some(task) => {
                        &&& action == if terminating {
                            WorkerAction::Exit(Some(task))
                        } else {
                            WorkerAction::Run(task)
                        }
                        &&& after.workers()[id].local_queue.items() == queue
                    },
                    None => if queue.len() > 0 {
                        &&& action == if terminating {
                            WorkerAction::Exit(Some(queue[0]))
                        } else {
                            WorkerAction::Run(queue[0])
                        }
                        &&& after.workers()[id].local_queue.items() == queue.subrange(
                            1,
                            queue.len() as int,
                        )
                    } else {
                        &&& action is Search
                        &&& after.phases()[id] is Searching
                        &&& after.workers()[id].local_queue.items().len() == 0
                    },
                }
            }),
            after.workers()[id].fast_slot is None,
            action is Run ==> after.phases()[id] is Running,
            action is Exit ==> after.phases()[id] is Terminated,
            after.context().pool_manager.searching() == if action is Search {
                pool::wrapped_sum(before.context().pool_manager.searching(), 1)
            } else {
                before.context().pool_manager.searching()
            },
            after.rngs() == before.rngs(),
            other != id ==> after.workers()[other] == before.workers()[other]
                && after.phases()[other] == before.phases()[other],
            after.context().injector == before.context().injector,
            after.context().pool_manager.registry() == before.context().pool_manager.registry(),
            after.active_tasks() == before.active_tasks(),
    {
        let queue = before.workers()[id].local_queue.items();
        if queue.len() > 0 {
            assert(queue.drop_first() =~= queue.subrange(1, queue.len() as int));
        }
    }

    /// A worker that is unparked returns if termination was triggered, searches for tasks
    /// if it was activated, and parks again otherwise. Nothing else changes.
    pub proof fn law_unparked_worker(
        before: Self,
        id: int,
        action: WorkerAction<T>,
        after: Self,
        other: int,
    )
        requires
            0 <= id < before.workers().len(),
            0 <= other < before.workers().len(),
            Self::worker_step(before, id, WorkerEvent::Unparked, action, after),
        ensures
            action == if before.context().pool_manager.terminating() {
                WorkerAction::<T>::Exit(None)
            } else if before.context().pool_manager.registry().active(id) {
                WorkerAction::<T>::Search
            } else {
                WorkerAction::<T>::Park
            },
            after.workers() == before.workers(),
            after.context() == before.context(),
            after.rngs() == before.rngs(),
            action is Exit ==> after.phases()[id] is Terminated,
            action is Search ==> after.phases()[id] is Searching,
            action is Park ==> after.phases() == before.phases(),
            other != id ==> after.phases()[other] == before.phases()[other],
    {
    }

    /// A worker that searches for tasks takes the last bucket of the injector queue if
    /// there is one, and runs the first task of it. Otherwise it steals from another
    /// active worker that has tasks in its local queue, if there is one: the oldest half
    /// of these, the last of which it runs. It runs nothing if there is no task to be
    /// found.
    ///
    /// The worker that is robbed, if any, is returned.
    pub proof fn law_search(
        before: Self,
        id: int,
        timed_out: bool,
        action: WorkerAction<T>,
        after: Self,
    ) -> (victim: int)
        requires
            before.wf(),
            0 <= id < before.workers().len(),
            before.phases()[id] is Searching,
            !before.context().pool_manager.terminating(),
            Self::worker_step(before, id, WorkerEvent::Searching(timed_out), action, after),
        ensures
            ({
                let buckets = before.context().injector@;
                let others_have_tasks = exists|worker: int|
                    0 <= worker < before.workers().len() && worker != id
                        && before.context().pool_manager.registry().active(worker)
                        && #[trigger] before.workers()[worker].local_queue.items().len() > 0;
                &&& action is Run <==> buckets.len() > 0 || others_have_tasks
                &&& action is Run ==> {
                    &&& after.phases()[id] is Running
                    &&& after.context().pool_manager.registry()
                        == before.context().pool_manager.registry()
                    &&& pool::wrapped_sum(after.context().pool_manager.searching(), 1)
                        == before.context().pool_manager.searching()
                }
                &&& buckets.len() > 0 ==> {
                    &&& action == WorkerAction::Run(buckets.last()[0])
                    &&& after.context().injector@ == buckets.drop_last()
                    &&& after.workers()[id].local_queue.items() == buckets.last().subrange(
                        1,
                        buckets.last().len() as int,
                    )
                    &&& after.workers()[id].fast_slot is None
                    &&& forall|other: int|
                        0 <= other < before.workers().len() && other != id
                            ==> #[trigger] after.workers()[other] == before.workers()[other]
                }
                &&& buckets.len() == 0 && others_have_tasks ==> {
                    let items = before.workers()[victim].local_queue.items();
                    &&& 0 <= victim < before.workers().len()
                    &&& victim != id
                    &&& before.context().pool_manager.registry().active(victim)
                    &&& action matches WorkerAction::Run(task)
                    &&& items == after.workers()[id].local_queue.items() + seq![task]
                        + after.workers()[victim].local_queue.items()
                    &&& after.workers()[victim].local_queue.items().len() == items.len() / 2
                    &&& after.workers()[victim].fast_slot == before.workers()[victim].fast_slot
                    &&& after.workers()[id].fast_slot is None
                    // No worker with tasks was passed over.
                    &&& exists|order: Seq<int>, turn: int|
                        {
                            &&& #[trigger] before.context().pool_manager.visits(
                                Some(id as usize),
                                before.rngs()[id],
                                order,
                                after.rngs()[id],
                            )
                            &&& 0 <= turn < order.len()
                            &&& #[trigger] order[turn] == victim
                            &&& forall|k: int|
                                0 <= k < turn
                                    ==> before.workers()[#[trigger] order[k]].local_queue.items().len()
                                    == 0
                        }
                    &&& forall|other: int|
                        0 <= other < before.workers().len() && other != id && other != victim
                            ==> #[trigger] after.workers()[other] == before.workers()[other]
                }
                &&& buckets.len() == 0 ==> after.context().injector@.len() == 0
                &&& buckets.len() == 0 && !others_have_tasks ==> after.workers()
                    == before.workers()
                &&& buckets.len() == 0 && !others_have_tasks && !timed_out ==> action is Search
                &&& buckets.len() == 0 && !others_have_tasks && timed_out ==> action is Park
                    || action is ParkLast
            }),
    {
        before.law_workers_ok();
        let buckets = before.context().injector@;
        assert(before.worker_ok(id));
        if exists|worker: int|
            0 <= worker < before.workers().len() && worker != id
                && before.context().pool_manager.registry().active(worker)
                && #[trigger] before.workers()[worker].local_queue.items().len() > 0 {
            let worker = choose|worker: int|
                0 <= worker < before.workers().len() && worker != id
                    && before.context().pool_manager.registry().active(worker)
                    && #[trigger] before.workers()[worker].local_queue.items().len() > 0;
            assert(before.can_rob(worker, id));
        }
        if before.has_task_for(id) {
            let mid = choose|mid: Self| #[trigger]
                Self::finds_tasks(before, id, mid) && Self::takes_task(mid, id, action, after);
            if buckets.len() > 0 {
                let bucket = buckets.last();
                assert(buckets[buckets.len() - 1].len() > 0);
                assert(mid.workers()[id].local_queue.items() == bucket);
                assert(bucket.drop_first() =~= bucket.subrange(1, bucket.len() as int));
                0
            } else {
                let victim = choose|victim: int| #[trigger]
                    before.can_rob(victim, id) && Self::selects_victim(
                        before,
                        id,
                        Some(victim),
                        mid,
                    ) && stolen_between(before.workers(), victim, id, mid.workers());
                law_stolen(
                    before.workers()[victim],
                    mid.workers()[victim],
                    mid.workers()[id],
                );
                assert(after.workers()[victim] == mid.workers()[victim]);
                let order = choose|order: Seq<int>| #[trigger]
                    before.context().pool_manager.visits(
                        Some(id as usize),
                        before.rngs()[id],
                        order,
                        mid.rngs()[id],
                    ) && before.first_to_rob(order, id, Some(victim));
                let turn = choose|turn: int|
                    0 <= turn < order.len() && #[trigger] order[turn] == victim && before.can_rob(
                        victim,
                        id,
                    ) && forall|k: int| 0 <= k < turn ==> !before.can_rob(#[trigger] order[k], id);
                assert(after.rngs()[id] == mid.rngs()[id]);
                pool::law_visits(
                    before.context().pool_manager,
                    Some(id as usize),
                    before.rngs()[id],
                    order,
                    mid.rngs()[id],
                    0,
                    0,
                );
                assert forall|k: int| 0 <= k < turn implies before.workers()[
                    #[trigger] order[k]
                ].local_queue.items().len() == 0 by {
                    assert(!before.can_rob(order[k], id));
                    assert(order.contains(order[k]));
                    before.context().pool_manager.registry().law_members();
                }
                assert(mid.workers()[id].fast_slot is Some);
                assert forall|other: int|
                    0 <= other < before.workers().len() && other != id && other
                        != victim implies #[trigger] after.workers()[other]
                    == before.workers()[other] by {
                    assert(mid.workers()[other] == before.workers()[other]);
                }
                victim
            }
        } else {
            if timed_out {
                let mid = choose|mid: Self| #[trigger]
                    Self::gives_up(before, id, mid) && Self::at_barrier(mid, id, action, after);
                assert(mid.context().injector == before.context().injector);
            }
            0
        }
    }

    /// The tasks that wait to be run are those of all workers, the ones in their fast
    /// slots included, along with those in the injector queue.
    pub proof fn law_waiting_tasks(self, task: T)
        ensures
            self.tasks().contains(task) <==> (exists|i: int|
                0 <= i < self.workers().len() && (#[trigger] self.workers()[i].local_queue.items().contains(
                    task,
                ) || self.workers()[i].fast_slot == Some(task))) || (exists|b: int|
                0 <= b < self.context().injector@.len()
                    && #[trigger] self.context().injector@[b].contains(task)),
    {
        broadcast use vstd::multiset::group_multiset_axioms;

        law_total(self.tasks_by_worker(), task);
        law_total(self.context().injector@, task);
        assert forall|i: int| 0 <= i < self.workers().len() implies (
        #[trigger] self.tasks_by_worker()[i].contains(task)
            <==> self.workers()[i].local_queue.items().contains(task)
            || self.workers()[i].fast_slot == Some(task)) by {
            let worker = self.workers()[i];
            let items = worker.local_queue.items();
            assert(self.tasks_by_worker()[i] == worker.tasks());
            if let Some(last) = worker.fast_slot {
                assert(items.push(last)[items.len() as int] == last);
                if items.contains(task) {
                    let k = items.index_of(task);
                    assert(items.push(last)[k] == task);
                }
                if items.push(last).contains(task) && last != task {
                    let k = items.push(last).index_of(task);
                    assert(items[k] == task);
                }
            }
        }
        if total(self.tasks_by_worker()).count(task) > 0 {
            let i = choose|i: int|
                0 <= i < self.tasks_by_worker().len() && (
                #[trigger] self.tasks_by_worker()[i]).contains(task);
            assert(self.tasks_by_worker()[i].contains(task));
            assert(self.workers()[i].local_queue.items().contains(task)
                || self.workers()[i].fast_slot == Some(task));
        }
        if exists|i: int|
            0 <= i < self.workers().len() && (#[trigger] self.workers()[i].local_queue.items().contains(
                task,
            ) || self.workers()[i].fast_slot == Some(task)) {
            let i = choose|i: int|
                0 <= i < self.workers().len() && (
                #[trigger] self.workers()[i].local_queue.items().contains(task)
                    || self.workers()[i].fast_slot == Some(task));
            assert(self.tasks_by_worker()[i].contains(task));
        }
    }

    proof fn lemma_same_tasks(self, before: Self, action: WorkerAction<T>)
        requires
            self.workers() == before.workers(),
            self.context().injector == before.context().injector,
            action.handed_out() == Multiset::<T>::empty(),
        ensures
            self.tasks().add(action.handed_out()) == before.tasks(),
    {
        broadcast use vstd::multiset::group_multiset_axioms;

        assert(self.tasks().add(action.handed_out()) =~= before.tasks());
    }
}

/// A task leaves the executor when it is to be run, or when it is dropped by a worker that
/// returns. No other action takes any task.
pub proof fn law_handed_out<T>(action: WorkerAction<T>, task: T)
    ensures
        action.handed_out().count(task) == match action {
            WorkerAction::Run(other) => if other == task {
                1nat
            } else {
                0nat
            },
            WorkerAction::Exit(Some(other)) => if other == task {
                1nat
            } else {
                0nat
            },
            _ => 0nat,
        },
{
    broadcast use vstd::multiset::group_multiset_axioms;

}

/// The oldest half of the tasks of the local queue is stolen, rounded up: none is lost,
/// and their order does not change. The last of them is the next one to be run by the
/// worker that has stolen them.
pub proof fn law_stolen<T>(victim_before: Worker<T>, victim: Worker<T>, thief: Worker<T>)
    requires
        stolen(victim_before, victim, thief),
    ensures
        thief.fast_slot is Some,
        victim_before.local_queue.items() == thief.local_queue.items() + seq![
            thief.fast_slot->Some_0,
        ] + victim.local_queue.items(),
        victim.local_queue.items().len() == victim_before.local_queue.items().len() / 2,
        victim.fast_slot == victim_before.fast_slot,
{
    let items = victim_before.local_queue.items();
    let count = items.len() - items.len() / 2;
    assert(items =~= items.take(count - 1) + seq![items[count - 1]] + items.skip(count));
}

proof fn lemma_total_empty<T>(s: Seq<Seq<T>>)
    requires
        forall|i: int| 0 <= i < s.len() ==> (#[trigger] s[i]) == Seq::<T>::empty(),
    ensures
        total(s) == Multiset::<T>::empty(),
    decreases s.len(),
{
    broadcast use vstd::multiset::group_multiset_axioms;

    Seq::<T>::empty().to_multiset_ensures();
    if s.len() > 0 {
        lemma_total_empty(s.drop_last());
        assert(s.last() == Seq::<T>::empty());
        assert(Seq::<T>::empty().to_multiset() =~= Multiset::<T>::empty());
    }
    assert(total(s) =~= Multiset::<T>::empty());
}

} // verus!
