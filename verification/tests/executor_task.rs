use std::future::Future;
use std::pin::Pin;
use std::sync::{Arc, Mutex};
use std::task::{Context, Poll, Wake, Waker};

use asynchronix::executor::task::{
    runnable_exists, Remains, RunAction, RunEvent, Runnable, Stage, TaskState,
};
use futures_channel::oneshot;

/// A task, its handle being held by a promise and by a cancellation token.
struct Task {
    state: Mutex<TaskState>,
    scheduled: Mutex<Vec<Runnable>>,
}

impl Wake for Task {
    fn wake(self: Arc<Self>) {
        if self.state.lock().unwrap().wake() {
            self.scheduled.lock().unwrap().push(Runnable::new());
        }
    }
}

struct Spawned<F: Future> {
    task: Arc<Task>,
    future: Option<Pin<Box<F>>>,
    output: Option<F::Output>,
    deallocated: bool,
}

/// Spawns a task with the given number of handles.
fn spawn<F: Future>(future: F, refs: u32) -> (Spawned<F>, Runnable) {
    let task = Arc::new(Task {
        state: Mutex::new(TaskState::new(refs)),
        scheduled: Mutex::new(Vec::new()),
    });
    (
        Spawned {
            task,
            future: Some(Box::pin(future)),
            output: None,
            deallocated: false,
        },
        Runnable::new(),
    )
}

impl<F: Future> Spawned<F> {
    fn run(&mut self, mut runnable: Runnable) {
        let waker = Waker::from(self.task.clone());
        let mut event = RunEvent::Picked;
        loop {
            let action = runnable.run(&mut self.task.state.lock().unwrap(), event);
            event = match action {
                RunAction::Poll => {
                    let mut cx = Context::from_waker(&waker);
                    match self.future.as_mut().unwrap().as_mut().poll(&mut cx) {
                        Poll::Pending => RunEvent::Pending,
                        Poll::Ready(output) => {
                            self.future = None;
                            self.output = Some(output);
                            RunEvent::Ready
                        }
                    }
                }
                RunAction::DropFuture => {
                    self.future = None;
                    RunEvent::FutureDropped
                }
                RunAction::DropOutput => {
                    self.output = None;
                    RunEvent::OutputDropped
                }
                RunAction::Return => return,
                RunAction::Deallocate => {
                    self.deallocated = true;
                    return;
                }
            };
        }
    }

    /// Cancels the task, which consumes the cancellation token.
    fn cancel(&mut self) {
        if self.task.state.lock().unwrap().cancel() {
            self.future = None;
        }
        self.drop_handle();
    }

    /// Drops a handle to the task.
    fn drop_handle(&mut self) {
        let mut state = self.task.state.lock().unwrap();
        if state.drop_ref() {
            match state.remains() {
                Remains::Future => self.future = None,
                Remains::Output => self.output = None,
                Remains::Nothing => {}
            }
            self.deallocated = true;
        }
    }

    /// Polls the promise.
    fn poll(&mut self) -> Stage<F::Output> {
        let stage = self.task.state.lock().unwrap().poll();
        stage.map(|_| self.output.take().unwrap())
    }

    fn run_scheduled_runnable(&mut self) -> bool {
        let runnable = self.task.scheduled.lock().unwrap().pop();
        match runnable {
            Some(runnable) => {
                self.run(runnable);
                true
            }
            None => false,
        }
    }
}

#[test]
fn task_schedule() {
    let (mut task, runnable) = spawn(async move { 42 }, 2);
    assert_eq!(task.future.is_some(), true);
    assert_eq!(task.output.is_some(), false);

    // The task should complete immediately when ran.
    task.run(runnable);
    assert_eq!(task.future.is_some(), false);
    assert_eq!(task.output.is_some(), true);
    assert_eq!(task.poll(), Stage::Ready(42));
    assert_eq!(task.output.is_some(), false);
}

#[test]
fn task_schedule_and_forget() {
    let (mut task, runnable) = spawn(async {}, 1);
    assert_eq!(task.future.is_some(), true);
    assert_eq!(task.output.is_some(), false);

    // The task should complete immediately when ran.
    task.run(runnable);
    assert_eq!(task.future.is_some(), false);
    assert_eq!(task.output.is_some(), true);
}

#[test]
fn task_wake() {
    let (sender, receiver) = oneshot::channel();
    let (mut task, runnable) = spawn(async move { receiver.await.unwrap() }, 2);
    task.run(runnable);

    // The future should have been polled but should not have completed.
    assert_eq!(task.output.is_some(), false);
    assert!(task.poll().is_pending());

    // Wake the task.
    sender.send(42).unwrap();

    // The task should have been scheduled by the channel sender.
    assert_eq!(task.run_scheduled_runnable(), true);
    assert_eq!(task.future.is_some(), false);
    assert_eq!(task.output.is_some(), true);
    assert_eq!(task.poll(), Stage::Ready(42));
}

#[test]
fn task_wake_and_forget() {
    let (sender, receiver) = oneshot::channel();
    let (mut task, runnable) = spawn(
        async move {
            let _ = receiver.await;
        },
        1,
    );
    task.run(runnable);

    // The future should have been polled but should not have completed.
    assert_eq!(task.output.is_some(), false);

    // Wake the task.
    sender.send(42).unwrap();

    // The task should have been scheduled by the channel sender.
    assert_eq!(task.run_scheduled_runnable(), true);
    assert_eq!(task.future.is_some(), false);
    assert_eq!(task.output.is_some(), true);
}

/// A queue of numbers that wakes the last task that found it empty.
#[derive(Clone, Default)]
struct Numbers {
    inner: Arc<Mutex<(Vec<u32>, Option<Waker>)>>,
}

impl Numbers {
    fn send(&self, number: u32) {
        let mut inner = self.inner.lock().unwrap();
        inner.0.push(number);
        if let Some(waker) = inner.1.take() {
            waker.wake();
        }
    }
}

struct NextNumber<'a>(&'a Numbers);

impl<'a> Future for NextNumber<'a> {
    type Output = u32;

    fn poll(self: Pin<&mut Self>, cx: &mut Context<'_>) -> Poll<u32> {
        let mut inner = self.0.inner.lock().unwrap();
        if inner.0.is_empty() {
            inner.1 = Some(cx.waker().clone());
            Poll::Pending
        } else {
            Poll::Ready(inner.0.remove(0))
        }
    }
}

#[test]
fn task_multiple_wake() {
    let sender = Numbers::default();
    let receiver = sender.clone();

    let (mut task, runnable) = spawn(
        async move {
            let mut sum = 0;
            for _ in 0..5 {
                sum += NextNumber(&receiver).await;
            }
            sum
        },
        2,
    );
    task.run(runnable);

    // The future should have been polled but should not have completed.
    assert!(task.poll().is_pending());

    // Wake the task 3 times.
    sender.send(1);
    sender.send(2);
    sender.send(3);

    // The task should have been scheduled by the channel sender.
    assert_eq!(task.run_scheduled_runnable(), true);
    assert!(task.poll().is_pending());

    // The channel should be empty. Wake the task 2 more times.
    sender.send(4);
    sender.send(5);

    // The task should have been scheduled by the channel sender.
    assert_eq!(task.run_scheduled_runnable(), true);

    // The task should have completed.
    assert_eq!(task.future.is_some(), false);
    assert_eq!(task.output.is_some(), true);
    assert_eq!(task.poll(), Stage::Ready(15));
}

#[test]
fn task_cancel_scheduled() {
    let (mut task, runnable) = spawn(async {}, 2);

    // Cancel the task while a `Runnable` exists (i.e. while the task is
    // considered scheduled).
    task.cancel();

    // The future should not be dropped while the `Runnable` exists, even if the
    // task is cancelled, but the task should be seen as cancelled.
    assert_eq!(task.future.is_some(), true);
    assert!(task.poll().is_cancelled());

    // An attempt to run the task should now drop the future without polling it.
    task.run(runnable);
    assert_eq!(task.future.is_some(), false);
    assert_eq!(task.output.is_some(), false);
}

#[test]
fn task_cancel_unscheduled() {
    let (sender, receiver) = oneshot::channel();
    let (mut task, runnable) = spawn(
        async move {
            let _ = receiver.await;
        },
        2,
    );
    task.run(runnable);
    assert_eq!(task.future.is_some(), true);
    assert_eq!(task.output.is_some(), false);

    // Cancel the task while no `Runnable` exists (the task is not scheduled as
    // it needs to be woken by the channel sender first).
    task.cancel();
    assert!(task.poll().is_cancelled());
    assert!(sender.send(()).is_err());

    // The future should be dropped immediately upon cancellation without
    // completing.
    assert_eq!(task.future.is_some(), false);
    assert_eq!(task.output.is_some(), false);
}

#[test]
fn task_cancel_completed() {
    let (mut task, runnable) = spawn(async move { 42 }, 2);
    task.run(runnable);
    assert_eq!(task.future.is_some(), false);
    assert_eq!(task.output.is_some(), true);

    // Cancel the already completed task.
    task.cancel();
    assert_eq!(task.output.is_some(), true);
    assert_eq!(task.poll(), Stage::Ready(42));
}

#[test]
fn task_drop_promise_scheduled() {
    let (mut task, runnable) = spawn(async {}, 2);
    // Drop the promise while a `Runnable` exists (i.e. while the task is
    // considered scheduled).
    task.drop_handle();

    // The task should complete immediately when ran.
    task.run(runnable);
    assert_eq!(task.future.is_some(), false);
    assert_eq!(task.output.is_some(), true);
}

#[test]
fn task_drop_promise_unscheduled() {
    let (sender, receiver) = oneshot::channel();
    let (mut task, runnable) = spawn(
        async move {
            let _ = receiver.await;
        },
        2,
    );
    task.run(runnable);

    // Drop the promise while no `Runnable` exists (the task is not scheduled as
    // it needs to be woken by the channel sender first).
    task.drop_handle();

    // Wake the task.
    assert!(sender.send(()).is_ok());

    // The task should have been scheduled by the channel sender.
    assert_eq!(task.run_scheduled_runnable(), true);
    assert_eq!(task.future.is_some(), false);
    assert_eq!(task.output.is_some(), true);
}

#[test]
fn task_drop_runnable() {
    let (sender, receiver) = oneshot::channel();
    let (mut task, runnable) = spawn(
        async move {
            let _ = receiver.await;
        },
        2,
    );
    task.run(runnable);

    // Wake the task.
    assert!(sender.send(()).is_ok());

    // Drop the task scheduled by the channel sender.
    let runnable = task.task.scheduled.lock().unwrap().pop();
    assert_eq!(runnable.is_some(), true);
    task.future = None;
    // The task is still referred to by the promise and the cancellation token.
    let deallocate = runnable
        .unwrap()
        .cancel(&mut task.task.state.lock().unwrap());
    assert_eq!(deallocate, false);
    assert!(task.poll().is_cancelled());
    assert_eq!(task.future.is_some(), false);
    assert_eq!(task.output.is_some(), false);
}

#[test]
fn task_unreferenced_is_deallocated() {
    // Nothing can wake the task anymore, so it expires when it is left pending.
    let (mut task, runnable) = spawn(std::future::pending::<()>(), 0);
    task.run(runnable);
    assert_eq!(task.future.is_some(), false);
    assert_eq!(task.deallocated, true);

    // Nobody can read the output.
    let (mut task, runnable) = spawn(async { 1 }, 0);
    task.run(runnable);
    assert_eq!(task.output, None);
    assert_eq!(task.deallocated, true);
}

#[test]
fn task_awaken_while_polled_is_polled_again() {
    let mut state = TaskState::new(1);
    let mut runnable = Runnable::new();
    assert_eq!(runnable.run(&mut state, RunEvent::Picked), RunAction::Poll);
    // No additional runnable is scheduled.
    assert_eq!(state.wake(), false);
    assert_eq!(runnable.run(&mut state, RunEvent::Pending), RunAction::Poll);
    assert_eq!(runnable.run(&mut state, RunEvent::Pending), RunAction::Return);
    // The next wake-up schedules the task.
    assert_eq!(state.wake(), true);
    assert_eq!(state.wake(), false);
}

#[test]
fn task_panic_drops_the_future() {
    let mut state = TaskState::new(1);
    let mut runnable = Runnable::new();
    assert_eq!(runnable.run(&mut state, RunEvent::Picked), RunAction::Poll);
    assert_eq!(
        runnable.run(&mut state, RunEvent::Panicked),
        RunAction::DropFuture
    );
    assert_eq!(
        runnable.run(&mut state, RunEvent::FutureDropped),
        RunAction::Return
    );
    // A closed task is never scheduled again.
    assert_eq!(state.wake(), false);
}

#[test]
fn task_drop_panic_closes_the_task() {
    let mut state = TaskState::new(1);
    let mut runnable = Runnable::new();
    assert_eq!(runnable.run(&mut state, RunEvent::Picked), RunAction::Poll);
    assert_eq!(
        runnable.run(&mut state, RunEvent::DropPanicked),
        RunAction::Return
    );
    assert!(state.poll().is_cancelled());
    assert_eq!(state.remains(), Remains::Nothing);

    let mut state = TaskState::new(0);
    let mut runnable = Runnable::new();
    assert_eq!(runnable.run(&mut state, RunEvent::Picked), RunAction::Poll);
    assert_eq!(
        runnable.run(&mut state, RunEvent::Ready),
        RunAction::DropOutput
    );
    assert_eq!(
        runnable.run(&mut state, RunEvent::DropPanicked),
        RunAction::Deallocate
    );
}

#[test]
fn task_last_handle_drops_what_is_left() {
    // The future is pending.
    let (mut task, runnable) = spawn(std::future::pending::<()>(), 1);
    task.run(runnable);
    task.drop_handle();
    assert_eq!(task.future.is_some(), false);
    assert_eq!(task.deallocated, true);

    // The output was not read.
    let (mut task, runnable) = spawn(async { 5 }, 1);
    task.run(runnable);
    assert_eq!(task.output.is_some(), true);
    task.drop_handle();
    assert_eq!(task.output.is_some(), false);
    assert_eq!(task.deallocated, true);

    // The task is scheduled, so this is left to the executor.
    let (mut task, runnable) = spawn(async { 5 }, 1);
    task.drop_handle();
    assert_eq!(task.future.is_some(), true);
    assert_eq!(task.deallocated, false);
    task.run(runnable);
    assert_eq!(task.output.is_some(), false);
    assert_eq!(task.deallocated, true);
}

#[test]
fn task_stage_map() {
    assert_eq!(Stage::Ready(3).map(|x| x + 1), Stage::Ready(4));
    assert_eq!(Stage::<i32>::Pending.map(|x| x + 1), Stage::Pending);
    assert_eq!(Stage::<i32>::Cancelled.map(|x| x + 1), Stage::Cancelled);
    assert_eq!(Stage::Ready(3).is_cancelled(), false);
    assert_eq!(Stage::<i32>::Pending.is_cancelled(), false);
    assert_eq!(Stage::<i32>::Cancelled.is_cancelled(), true);
}

#[test]
fn task_schedule_flag() {
    // Polling, with and without pending wake-ups.
    assert_eq!(runnable_exists(1), false);
    assert_eq!(runnable_exists(1 | (1 << 33)), true);
    assert_eq!(runnable_exists(1 << 33), false);
    // Polling and closed.
    assert_eq!(runnable_exists(3), true);
    assert_eq!(runnable_exists(2), false);
}
