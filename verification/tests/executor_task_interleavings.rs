//! Systematic exploration of the interleavings of the operations on a task.

use std::cell::Cell;
use std::rc::Rc;

use asynchronix::executor::task::{Remains, RunAction, RunEvent, Runnable, Stage, TaskState};

/// Replays a program along all sequences of choices.
struct Choices {
    prefix: Vec<(usize, usize)>,
    at: usize,
}

impl Choices {
    fn pick(&mut self, options: usize) -> usize {
        if self.at == self.prefix.len() {
            self.prefix.push((0, options));
        }
        let choice = self.prefix[self.at].0;
        self.at += 1;
        choice
    }

    fn advance(&mut self) -> bool {
        self.at = 0;
        while let Some((choice, options)) = self.prefix.pop() {
            if choice + 1 < options {
                self.prefix.push((choice + 1, options));
                return true;
            }
        }
        false
    }
}

/// A task and its environment.
///
/// The future of the task completes when a counter reaches zero. The counter is
/// shared by the future and the controllers that decrement it, and holds a
/// waker of the task once the future has been polled.
struct World {
    state: TaskState,
    slot: Option<Runnable>,
    count: usize,
    has_waker: bool,
    counter_refs: usize,
    future_is_alive: bool,
    output_is_alive: bool,
    is_deallocated: bool,
}

impl World {
    /// Spawns a task with the given number of handles, a counter with an initial
    /// value and the given number of controllers.
    fn new(handles: u32, count: usize, controllers: usize) -> Self {
        World {
            state: TaskState::new(handles),
            slot: Some(Runnable::new()),
            count,
            has_waker: false,
            counter_refs: controllers + 1,
            future_is_alive: true,
            output_is_alive: false,
            is_deallocated: false,
        }
    }

    fn drop_future(&mut self) {
        assert!(self.future_is_alive);
        self.future_is_alive = false;
        self.drop_counter();
    }

    fn drop_output(&mut self) {
        assert!(self.output_is_alive);
        self.output_is_alive = false;
    }

    fn deallocate(&mut self) {
        assert!(!self.is_deallocated);
        assert!(!self.future_is_alive);
        assert!(!self.output_is_alive);
        self.is_deallocated = true;
    }

    /// Drops a reference to the counter, which owns the waker.
    fn drop_counter(&mut self) {
        self.counter_refs -= 1;
        if self.counter_refs == 0 && self.has_waker {
            self.has_waker = false;
            self.drop_handle();
        }
    }

    /// Drops a handle to the task.
    fn drop_handle(&mut self) {
        assert!(!self.is_deallocated);
        if self.state.drop_ref() {
            match self.state.remains() {
                Remains::Future => self.drop_future(),
                Remains::Output => self.drop_output(),
                Remains::Nothing => {}
            }
            self.deallocate();
        }
    }

    fn poll(&mut self) -> Stage<()> {
        assert!(!self.is_deallocated);
        let stage = self.state.poll();
        if let Stage::Ready(_) = stage {
            self.drop_output();
        }
        stage
    }

    /// Checks that nothing leaked.
    fn check_end(&self) {
        assert!(self.is_deallocated);
        assert_eq!(self.counter_refs, 0);
    }
}

/// A thread, which performs one atomic operation at each call and returns `true`
/// once it has terminated.
type Thread = Box<dyn FnMut(&mut World) -> bool>;

/// Runs a task that was taken from the slot.
struct Run {
    runnable: Runnable,
    event: Option<RunEvent>,
    registering: bool,
}

impl Run {
    fn new(runnable: Runnable) -> Self {
        Run {
            runnable,
            event: Some(RunEvent::Picked),
            registering: false,
        }
    }

    fn step(&mut self, world: &mut World) -> bool {
        let event = match self.event.take() {
            Some(event) => event,
            None => {
                // Poll the future.
                assert!(world.future_is_alive);
                if self.registering {
                    self.registering = false;
                    world.has_waker = true;
                    world.state.add_ref();
                } else if world.count != 0 && !world.has_waker {
                    self.registering = true;
                    return false;
                }
                self.event = Some(if world.count == 0 {
                    RunEvent::Ready
                } else {
                    RunEvent::Pending
                });
                return false;
            }
        };
        if event == RunEvent::Ready {
            world.drop_future();
            world.output_is_alive = true;
        }
        match self.runnable.run(&mut world.state, event) {
            RunAction::Poll => false,
            RunAction::DropFuture => {
                world.drop_future();
                self.event = Some(RunEvent::FutureDropped);
                false
            }
            RunAction::DropOutput => {
                world.drop_output();
                self.event = Some(RunEvent::OutputDropped);
                false
            }
            RunAction::Return => true,
            RunAction::Deallocate => {
                world.deallocate();
                true
            }
        }
    }
}

/// A thread that tries several times to run the task.
fn poll_task(attempts: usize, poll_count: Rc<Cell<usize>>) -> Thread {
    let mut attempts = attempts;
    let mut run: Option<Run> = None;
    Box::new(move |world| {
        match run.as_mut() {
            Some(current) => {
                if current.step(world) {
                    run = None;
                    poll_count.set(poll_count.get() + 1);
                    attempts -= 1;
                }
            }
            None => match world.slot.take() {
                Some(runnable) => run = Some(Run::new(runnable)),
                None => attempts -= 1,
            },
        }
        attempts == 0 && run.is_none()
    })
}

/// A thread that drops the runnable if there is one.
fn drop_runnable() -> Thread {
    let mut taken: Option<Runnable> = None;
    Box::new(move |world| match taken.take() {
        None => {
            taken = world.slot.take();
            taken.is_none()
        }
        Some(runnable) => {
            world.drop_future();
            if runnable.cancel(&mut world.state) {
                world.deallocate();
            }
            true
        }
    })
}

/// A thread that decrements the counter and wakes the task each time.
fn decrement(count: usize) -> Thread {
    let mut count = count;
    let mut wake = false;
    Box::new(move |world| {
        if wake {
            wake = false;
            assert!(!world.is_deallocated);
            if world.state.wake() {
                // There is at most one runnable per task at any time.
                assert!(world.slot.is_none());
                world.slot = Some(Runnable::new());
            }
        } else if count == 0 {
            world.drop_counter();
            return true;
        } else {
            count -= 1;
            world.count -= 1;
            wake = world.has_waker;
        }
        false
    })
}

/// A thread that cancels the task.
fn cancel(done: Rc<Cell<bool>>) -> Thread {
    let mut step = 0;
    Box::new(move |world| {
        match step {
            0 => {
                if world.state.cancel() {
                    world.drop_future();
                }
            }
            1 => world.drop_handle(),
            _ => {
                done.set(true);
                return true;
            }
        }
        step += 1;
        false
    })
}

/// A thread that drops a handle to the task.
fn drop_handle() -> Thread {
    Box::new(move |world| {
        world.drop_handle();
        true
    })
}

/// Runs the threads along all interleavings with a bounded number of preemptions.
fn explore<F>(preemption_bound: usize, mut program: F)
where
    F: FnMut() -> (World, Vec<Thread>, Box<dyn FnOnce(World)>),
{
    let mut choices = Choices {
        prefix: Vec::new(),
        at: 0,
    };
    loop {
        let (mut world, threads, end) = program();
        let mut threads: Vec<Option<Thread>> = threads.into_iter().map(Some).collect();
        let mut current = 0;
        let mut preemptions = 0;
        loop {
            let enabled: Vec<usize> = (0..threads.len())
                .filter(|i| threads[*i].is_some())
                .collect();
            if enabled.is_empty() {
                break;
            }
            if !enabled.contains(&current) {
                current = enabled[choices.pick(enabled.len())];
            } else if preemptions < preemption_bound {
                let next = enabled[choices.pick(enabled.len())];
                if next != current {
                    preemptions += 1;
                }
                current = next;
            }
            let terminated = match threads[current].as_mut() {
                Some(thread) => thread(&mut world),
                None => unreachable!(),
            };
            if terminated {
                threads[current] = None;
            }
        }
        end(world);
        if !choices.advance() {
            break;
        }
    }
}

/// Runs the task which has just been spawned.
fn run_spawned(world: &mut World) {
    let mut run = Run::new(world.slot.take().unwrap());
    while !run.step(world) {}
}

#[test]
fn loom_task_schedule() {
    explore(4, || {
        let world = World::new(2, 0, 0);
        let poll_count = Rc::new(Cell::new(0));
        let ready = poll_count.clone();
        let check: Thread = Box::new(move |world| {
            if ready.get() == 1 {
                assert_eq!(world.poll(), Stage::Ready(()));
            }
            true
        });
        (
            world,
            vec![poll_task(1, poll_count), check],
            Box::new(|mut world| {
                world.drop_handle();
                world.drop_handle();
                world.check_end();
            }),
        )
    });
}

#[test]
fn loom_task_cancel() {
    explore(4, || {
        let mut world = World::new(2, 1, 1);
        run_spawned(&mut world);
        let is_cancelled = Rc::new(Cell::new(false));
        let done = is_cancelled.clone();
        let check: Thread = Box::new(move |world| {
            if is_cancelled.get() {
                assert!(world.poll() != Stage::Pending);
            }
            true
        });
        (
            world,
            vec![
                check,
                decrement(1),
                poll_task(1, Rc::new(Cell::new(0))),
                cancel(done),
            ],
            Box::new(|mut world| {
                world.drop_handle();
                // The task may still be scheduled.
                if world.slot.is_some() {
                    run_spawned(&mut world);
                }
                world.check_end();
            }),
        )
    });
}

#[test]
fn loom_task_run_and_drop() {
    explore(4, || {
        let mut world = World::new(1, 1, 1);
        run_spawned(&mut world);
        (
            world,
            vec![
                drop_handle(),
                decrement(1),
                poll_task(1, Rc::new(Cell::new(0))),
            ],
            Box::new(|mut world| {
                if world.slot.is_some() {
                    run_spawned(&mut world);
                }
                world.check_end();
            }),
        )
    });
}

#[test]
fn loom_task_run_and_cancel() {
    explore(4, || {
        let mut world = World::new(1, 1, 1);
        run_spawned(&mut world);
        (
            world,
            vec![
                cancel(Rc::new(Cell::new(false))),
                decrement(1),
                poll_task(1, Rc::new(Cell::new(0))),
            ],
            Box::new(|mut world| {
                if world.slot.is_some() {
                    run_spawned(&mut world);
                }
                world.check_end();
            }),
        )
    });
}

#[test]
fn loom_task_drop_all() {
    explore(4, || {
        (
            World::new(2, 0, 0),
            vec![drop_handle(), drop_handle(), drop_runnable()],
            Box::new(|world| world.check_end()),
        )
    });
}

#[test]
fn loom_task_drop_with_waker() {
    explore(4, || {
        let mut world = World::new(2, 1, 1);
        run_spawned(&mut world);
        (
            world,
            vec![
                drop_handle(),
                decrement(1),
                drop_handle(),
                drop_runnable(), // drop the runnable if available
            ],
            Box::new(|mut world| {
                if let Some(runnable) = world.slot.take() {
                    world.drop_future();
                    if runnable.cancel(&mut world.state) {
                        world.deallocate();
                    }
                }
                world.check_end();
            }),
        )
    });
}

/// Wakes the task from one or two threads.
fn loom_task_wake(preemption_bound: usize, tick_count1: usize, tick_count2: usize) {
    let total_tick_count = tick_count1 + tick_count2;
    explore(preemption_bound, || {
        let controllers = (tick_count1 != 0) as usize + (tick_count2 != 0) as usize;
        let mut world = World::new(2, total_tick_count, controllers);
        run_spawned(&mut world);
        let poll_count = Rc::new(Cell::new(0));
        let has_completed = Rc::new(Cell::new(false));

        // Check that the promise is available if the task has been polled
        // `total_tick_count` times.
        let poll_count_check = poll_count.clone();
        let has_completed_check = has_completed.clone();
        let check: Thread = Box::new(move |world| {
            if poll_count_check.get() == total_tick_count {
                has_completed_check.set(true);
                assert_eq!(world.poll(), Stage::Ready(()));
            }
            true
        });
        let mut threads = vec![check, poll_task(total_tick_count, poll_count.clone())];
        if tick_count1 != 0 {
            threads.push(decrement(tick_count1));
        }
        if tick_count2 != 0 {
            threads.push(decrement(tick_count2));
        }
        (
            world,
            threads,
            Box::new(move |mut world| {
                // If the promise has not been retrieved yet, retrieve it now.
                // It may be necessary to poll the task one last time.
                if !has_completed.get() {
                    if poll_count.get() != total_tick_count && world.slot.is_some() {
                        run_spawned(&mut world);
                    }
                    assert_eq!(world.poll(), Stage::Ready(()));
                }
                world.drop_handle();
                world.drop_handle();
                world.check_end();
            }),
        )
    });
}

#[test]
fn loom_task_wake_single_thread() {
    loom_task_wake(3, 4, 0);
}

#[test]
fn loom_task_wake_multi_thread() {
    loom_task_wake(3, 1, 2);
}
