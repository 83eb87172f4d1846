//! Execution of futures on simulated worker threads.

use std::future::Future;
use std::pin::Pin;
use std::sync::atomic::{AtomicUsize, Ordering};
use std::sync::{Arc, Mutex};
use std::task::{Context, Poll, Wake, Waker};

use asynchronix::executor::pool::PoolManager;
use asynchronix::executor::rng::Rng;
use asynchronix::executor::task::{RunAction, RunEvent, Runnable, TaskState};
use asynchronix::executor::{Executor, ExecutorError, RunStatus, WorkerAction, WorkerEvent};
use asynchronix::simulation::model_id::ModelId;
use futures_channel::oneshot;

/// The tasks that were awaken and must be scheduled.
type Awaken = Arc<Mutex<Vec<usize>>>;

struct Task {
    index: usize,
    state: Mutex<TaskState>,
    awaken: Awaken,
}

impl Wake for Task {
    fn wake(self: Arc<Self>) {
        if self.state.lock().unwrap().wake() {
            self.awaken.lock().unwrap().push(self.index);
        }
    }
}

#[derive(Clone, Copy, PartialEq)]
enum Thread {
    /// The thread tells an event to the executor.
    Ready(WorkerEvent),
    Parked,
    Exited,
}

/// Simulates the threads of an executor in a round-robin fashion.
struct Driver {
    executor: Executor<usize>,
    threads: Vec<Thread>,
    /// Threads that were unparked before they park.
    permits: Vec<bool>,
    tasks: Vec<Arc<Task>>,
    keys: Vec<usize>,
    futures: Vec<Option<Pin<Box<dyn Future<Output = ()>>>>>,
    awaken: Awaken,
    main_unparked: bool,
}

impl Driver {
    fn new(num_threads: usize) -> Self {
        Driver {
            executor: Executor::new(0, num_threads),
            threads: vec![Thread::Ready(WorkerEvent::Started); num_threads],
            permits: vec![false; num_threads],
            tasks: Vec::new(),
            keys: Vec::new(),
            futures: Vec::new(),
            awaken: Arc::new(Mutex::new(Vec::new())),
            main_unparked: false,
        }
    }

    fn unpark(&mut self, worker: Option<usize>) {
        if let Some(id) = worker {
            if self.threads[id] == Thread::Parked {
                self.threads[id] = Thread::Ready(WorkerEvent::Unparked);
            } else {
                self.permits[id] = true;
            }
        }
    }

    fn park(&mut self, id: usize) -> Thread {
        if self.permits[id] {
            self.permits[id] = false;
            Thread::Ready(WorkerEvent::Unparked)
        } else {
            Thread::Parked
        }
    }

    fn spawn_and_forget<F: Future<Output = ()> + 'static>(&mut self, future: F) {
        let index = self.tasks.len();
        self.tasks.push(Arc::new(Task {
            index,
            state: Mutex::new(TaskState::new(1)),
            awaken: self.awaken.clone(),
        }));
        self.futures.push(Some(Box::pin(future)));
        self.keys.push(self.executor.next_cancellation_key());
        let unparked = self.executor.spawn(index, index as u64);
        self.unpark(unparked);
    }

    fn run_task(&mut self, id: usize, index: usize) {
        let task = self.tasks[index].clone();
        let waker = Waker::from(task.clone());
        let mut runnable = Runnable::new();
        let mut event = RunEvent::Picked;
        loop {
            let action = runnable.run(&mut task.state.lock().unwrap(), event);
            event = match action {
                RunAction::Poll => {
                    let mut cx = Context::from_waker(&waker);
                    match self.futures[index].as_mut().unwrap().as_mut().poll(&mut cx) {
                        Poll::Pending => RunEvent::Pending,
                        Poll::Ready(()) => {
                            self.futures[index] = None;
                            self.executor.forget(self.keys[index]);
                            RunEvent::Ready
                        }
                    }
                }
                RunAction::DropFuture => {
                    self.futures[index] = None;
                    RunEvent::FutureDropped
                }
                RunAction::DropOutput => RunEvent::OutputDropped,
                RunAction::Return | RunAction::Deallocate => break,
            };
            self.schedule_awaken(id);
        }
        self.schedule_awaken(id);
    }

    fn schedule_awaken(&mut self, id: usize) {
        loop {
            let index = self.awaken.lock().unwrap().pop();
            match index {
                Some(index) => {
                    let unparked = self.executor.schedule(id, index);
                    self.unpark(unparked);
                }
                None => break,
            }
        }
    }

    fn run(&mut self, unprocessed_messages: usize) -> Result<(), ExecutorError> {
        loop {
            match self.executor.run(unprocessed_messages) {
                RunStatus::Done(result) => return result,
                RunStatus::Park => {}
            }
            self.main_unparked = false;
            let mut rounds = 0;
            while !self.main_unparked {
                for id in 0..self.threads.len() {
                    self.advance(id);
                }
                rounds += 1;
                assert!(rounds < 10_000);
            }
        }
    }

    fn advance(&mut self, id: usize) {
        let event = match self.threads[id] {
            Thread::Ready(event) => event,
            _ => return,
        };
        self.threads[id] = match self.executor.run_local_worker(id, event) {
            WorkerAction::Park => self.park(id),
            WorkerAction::ParkLast => {
                self.main_unparked = true;
                self.park(id)
            }
            // Give up on the second search.
            WorkerAction::Search => {
                Thread::Ready(WorkerEvent::Searching(event == WorkerEvent::Searching(false)))
            }
            WorkerAction::Run(index) => {
                self.run_task(id, index);
                Thread::Ready(WorkerEvent::TaskDone)
            }
            WorkerAction::Exit(_) => Thread::Exited,
        };
    }

    /// Terminates the workers and drops all tasks.
    fn shut_down(mut self) {
        self.executor.terminate();
        for id in 0..self.threads.len() {
            self.unpark(Some(id));
        }
        let mut rounds = 0;
        while self.threads.iter().any(|thread| *thread != Thread::Exited) {
            rounds += 1;
            assert!(rounds < 10_000);
            for id in 0..self.threads.len() {
                self.advance(id);
            }
        }
        for token in self.executor.cancel_all() {
            self.futures[token as usize] = None;
        }
    }
}

fn deadlock(num_threads: usize) {
    let (_sender1, receiver1) = oneshot::channel::<()>();
    let (_sender2, receiver2) = oneshot::channel::<()>();

    let mut driver = Driver::new(num_threads);
    let launch_count = Arc::new(AtomicUsize::new(0));
    let completion_count = Arc::new(AtomicUsize::new(0));

    for receiver in [receiver2, receiver1] {
        let launch_count = launch_count.clone();
        let completion_count = completion_count.clone();
        driver.spawn_and_forget(async move {
            launch_count.fetch_add(1, Ordering::Relaxed);
            let _ = receiver.await;
            completion_count.fetch_add(1, Ordering::Relaxed);
        });
    }

    assert_eq!(driver.run(0), Ok(()));
    // Check that the executor returns on deadlock, i.e. none of the task has
    // completed.
    assert_eq!(launch_count.load(Ordering::Relaxed), 2);
    assert_eq!(completion_count.load(Ordering::Relaxed), 0);
}

#[test]
fn executor_deadlock() {
    const NUM_THREADS: usize = 3;
    deadlock(NUM_THREADS);
}

#[test]
fn executor_deadlock_st() {
    const NUM_THREADS: usize = 1;
    deadlock(NUM_THREADS);
}

/// An object that runs an arbitrary closure when dropped.
struct RunOnDrop<F: FnOnce()> {
    drop_fn: Option<F>,
}
impl<F: FnOnce()> RunOnDrop<F> {
    /// Creates a new `RunOnDrop`.
    fn new(drop_fn: F) -> Self {
        Self {
            drop_fn: Some(drop_fn),
        }
    }
}
impl<F: FnOnce()> Drop for RunOnDrop<F> {
    fn drop(&mut self) {
        self.drop_fn.take().map(|f| f());
    }
}

fn drop_cycle(num_threads: usize) {
    let mut senders = Vec::new();
    let mut receivers = Vec::new();
    for _ in 0..3 {
        let (sender, receiver) = oneshot::channel::<()>();
        senders.push(Arc::new(Mutex::new(Some(sender))));
        receivers.push(receiver);
    }

    let mut driver = Driver::new(num_threads);
    let drop_count = Arc::new(AtomicUsize::new(0));

    // Spawn 3 tasks that wake one another when dropped.
    for (i, receiver) in receivers.into_iter().enumerate() {
        let first = senders[(i + 1) % 3].clone();
        let second = senders[(i + 2) % 3].clone();
        let drop_count = drop_count.clone();
        driver.spawn_and_forget(async move {
            let _guard = RunOnDrop::new(move || {
                for sender in [first, second] {
                    if let Some(sender) = sender.lock().unwrap().take() {
                        let _ = sender.send(());
                    }
                }
                drop_count.fetch_add(1, Ordering::Relaxed);
            });
            let _ = receiver.await;
        });
    }

    assert_eq!(driver.run(0), Ok(()));

    // Make sure that all tasks are eventually dropped even though each task
    // wakes the others when dropped.
    driver.shut_down();
    assert_eq!(drop_count.load(Ordering::Relaxed), 3);
}

#[test]
fn executor_drop_cycle() {
    const NUM_THREADS: usize = 3;
    drop_cycle(NUM_THREADS);
}

#[test]
fn executor_drop_cycle_st() {
    drop_cycle(1);
}

#[test]
fn executor_drop_cycle_mt() {
    drop_cycle(3);
}

#[test]
fn executor_reports_unprocessed_messages() {
    let mut driver = Driver::new(2);
    driver.spawn_and_forget(async {});
    assert_eq!(driver.run(1), Err(ExecutorError::Deadlock));
}

#[test]
fn executor_relays_a_panic_once() {
    let mut executor = Executor::<usize>::new(0, 2);
    executor.worker_panicked(ModelId::new(3), 17);
    executor.worker_panicked(ModelId::new(4), 18);
    match executor.run(0) {
        RunStatus::Done(Err(ExecutorError::Panic(model_id, payload))) => {
            assert_eq!(model_id.get(), Some(3));
            assert_eq!(payload, 17);
        }
        _ => panic!(),
    }
}

#[test]
fn executor_runs_all_tasks() {
    // Many more tasks than the local queues can hold, each of which wakes
    // another one.
    const TASKS: usize = 1000;

    for num_threads in 1..5usize {
        let mut driver = Driver::new(num_threads);
        let count = Arc::new(AtomicUsize::new(0));
        let mut senders = Vec::new();
        for _ in 0..TASKS {
            let (sender, receiver) = oneshot::channel::<()>();
            senders.push(sender);
            let count = count.clone();
            driver.spawn_and_forget(async move {
                receiver.await.unwrap();
                count.fetch_add(1, Ordering::Relaxed);
            });
        }
        assert_eq!(driver.run(0), Ok(()));
        assert_eq!(count.load(Ordering::Relaxed), 0);

        driver.spawn_and_forget(async move {
            for sender in senders {
                sender.send(()).unwrap();
            }
        });
        assert_eq!(driver.run(0), Ok(()));
        assert_eq!(count.load(Ordering::Relaxed), TASKS);
    }
}

#[test]
fn executor_terminates_busy_workers() {
    // Terminate after any number of rounds, while some workers are starting,
    // searching for tasks, running tasks or parked.
    for num_threads in 1..5usize {
        for rounds in 0..12usize {
            let mut driver = Driver::new(num_threads);
            for _ in 0..3 {
                driver.spawn_and_forget(async {});
            }
            for _ in 0..rounds {
                for id in 0..num_threads {
                    driver.advance(id);
                }
            }
            driver.shut_down();
        }
    }
}

#[test]
fn executor_terminates_a_worker_that_runs_a_task() {
    let mut executor = Executor::<usize>::new(0, 1);
    assert!(matches!(
        executor.run_local_worker(0, WorkerEvent::Started),
        WorkerAction::ParkLast
    ));
    assert_eq!(executor.spawn(7, 0), Some(0));
    assert!(matches!(
        executor.run_local_worker(0, WorkerEvent::Unparked),
        WorkerAction::Search
    ));
    assert!(matches!(
        executor.run_local_worker(0, WorkerEvent::Searching(false)),
        WorkerAction::Run(7)
    ));
    executor.terminate();
    assert!(matches!(
        executor.run_local_worker(0, WorkerEvent::TaskDone),
        WorkerAction::Search
    ));
    assert!(matches!(
        executor.run_local_worker(0, WorkerEvent::Searching(true)),
        WorkerAction::ParkLast
    ));
    assert!(matches!(
        executor.run_local_worker(0, WorkerEvent::Unparked),
        WorkerAction::Exit(None)
    ));
}

#[test]
fn executor_terminates_workers_that_have_not_started() {
    let mut executor = Executor::<usize>::new(0, 2);
    executor.terminate();
    assert!(matches!(
        executor.run_local_worker(1, WorkerEvent::Started),
        WorkerAction::Park
    ));
    assert!(matches!(
        executor.run_local_worker(0, WorkerEvent::Started),
        WorkerAction::ParkLast
    ));
    for id in 0..2 {
        assert!(matches!(
            executor.run_local_worker(id, WorkerEvent::Unparked),
            WorkerAction::Exit(None)
        ));
    }
}

#[test]
fn executor_terminates_after_a_panic() {
    let mut executor = Executor::<usize>::new(0, 2);
    for id in 0..2 {
        let _ = executor.run_local_worker(id, WorkerEvent::Started);
    }
    assert_eq!(executor.spawn(1, 0), Some(0));
    assert_eq!(executor.spawn(2, 1), Some(1));
    for id in 0..2 {
        assert!(matches!(
            executor.run_local_worker(id, WorkerEvent::Unparked),
            WorkerAction::Search
        ));
    }
    // The first worker takes both tasks, the second one steals the other task
    // and panics.
    assert!(matches!(
        executor.run_local_worker(0, WorkerEvent::Searching(false)),
        WorkerAction::Run(1)
    ));
    assert!(matches!(
        executor.run_local_worker(1, WorkerEvent::Searching(false)),
        WorkerAction::Run(2)
    ));
    executor.worker_panicked(ModelId::new(3), 17);
    assert!(matches!(
        executor.run_local_worker(0, WorkerEvent::TaskDone),
        WorkerAction::Search
    ));
    assert!(matches!(
        executor.run_local_worker(0, WorkerEvent::Searching(true)),
        WorkerAction::Park
    ));
    assert!(matches!(
        executor.run_local_worker(0, WorkerEvent::Unparked),
        WorkerAction::Exit(None)
    ));
}

#[test]
fn executor_drops_a_task_found_after_termination() {
    let mut executor = Executor::<usize>::new(0, 1);
    let _ = executor.run_local_worker(0, WorkerEvent::Started);
    assert_eq!(executor.spawn(7, 0), Some(0));
    let _ = executor.run_local_worker(0, WorkerEvent::Unparked);
    executor.terminate();
    assert!(matches!(
        executor.run_local_worker(0, WorkerEvent::Searching(false)),
        WorkerAction::Exit(Some(7))
    ));
}

#[test]
fn executor_robs_the_first_sibling_in_random_order() {
    let mut executor = Executor::<usize>::new(0, 3);
    for id in 0..3 {
        let _ = executor.run_local_worker(id, WorkerEvent::Started);
    }
    for i in 0..200 {
        let _ = executor.spawn(i, i as u64);
    }
    for id in 0..3 {
        assert!(matches!(
            executor.run_local_worker(id, WorkerEvent::Unparked),
            WorkerAction::Search
        ));
    }
    // The first two workers empty the injector queue.
    assert!(matches!(
        executor.run_local_worker(0, WorkerEvent::Searching(false)),
        WorkerAction::Run(0)
    ));
    assert!(matches!(
        executor.run_local_worker(1, WorkerEvent::Searching(false)),
        WorkerAction::Run(128)
    ));

    // The generator of the last worker is seeded with its ID.
    let mut manager = PoolManager::new(3);
    manager.set_all_workers_active();
    let victim = manager
        .shuffled_stealers(Some(2), &mut Rng::new(2))
        .next();
    let stolen = match executor.run_local_worker(2, WorkerEvent::Searching(false)) {
        WorkerAction::Run(task) => task,
        _ => panic!(),
    };
    match victim {
        Some(0) => assert_eq!(stolen, 64),
        Some(1) => assert_eq!(stolen, 164),
        _ => panic!(),
    }
}

#[test]
fn executor_has_no_task_when_done() {
    for num_threads in 1..4usize {
        let mut driver = Driver::new(num_threads);
        for _ in 0..300 {
            driver.spawn_and_forget(async {});
        }
        assert_eq!(driver.run(0), Ok(()));
        assert!(driver.futures.iter().all(Option::is_none));
    }
}

#[test]
fn executor_times_out() {
    let mut executor = Executor::<usize>::new(0, 1);
    assert!(matches!(executor.run_with_timeout(0, false), RunStatus::Park));
    let _ = executor.run_local_worker(0, WorkerEvent::Started);
    // The execution is over, so it does not matter how long it took.
    assert!(matches!(
        executor.run_with_timeout(0, true),
        RunStatus::Done(Ok(()))
    ));
    assert!(matches!(
        executor.run_with_timeout(1, true),
        RunStatus::Done(Err(ExecutorError::Deadlock))
    ));
    assert_eq!(executor.spawn(7, 0), Some(0));
    assert!(matches!(executor.run_with_timeout(0, false), RunStatus::Park));
    assert!(matches!(
        executor.run_with_timeout(0, true),
        RunStatus::Done(Err(ExecutorError::Timeout))
    ));
    assert!(matches!(
        executor.run_local_worker(0, WorkerEvent::Unparked),
        WorkerAction::Exit(None)
    ));
}
