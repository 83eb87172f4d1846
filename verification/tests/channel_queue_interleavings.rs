//! Interleavings of the operations of the producers and the consumer of a queue.

use std::cell::Cell;
use std::rc::Rc;

use asynchronix::channel::queue::{MessageBorrow, PopError, PushError, Queue};

/// A small generator of pseudo-random schedules.
struct Schedule(u64);

impl Schedule {
    fn pick(&mut self, count: usize) -> usize {
        self.0 = self
            .0
            .wrapping_mul(6364136223846793005)
            .wrapping_add(1442695040888963407);
        ((self.0 >> 33) as usize) % count
    }
}

/// Takes the next message, which is released before the next operation.
fn pop(queue: &mut Queue<usize>) -> Option<usize> {
    match queue.pop() {
        Ok(borrow) => Some(queue.release(borrow)),
        Err(_) => None,
    }
}

fn queue_spsc(capacity: usize) {
    const COUNT: usize = 100_000;

    let mut queue = Queue::new(capacity);
    let mut schedule = Schedule(capacity as u64);
    let mut pushed = 0;
    let mut popped = 0;
    while popped < COUNT {
        if pushed < COUNT && schedule.pick(2) == 0 {
            if queue.push(pushed).is_ok() {
                pushed += 1;
            }
        } else if let Some(message) = pop(&mut queue) {
            assert_eq!(message, popped);
            popped += 1;
        }
    }
    assert!(queue.pop().is_err());
}

#[test]
fn queue_spsc_capacity_one() {
    queue_spsc(1);
}
#[test]
fn queue_spsc_capacity_two() {
    queue_spsc(2);
}
#[test]
fn queue_spsc_capacity_three() {
    queue_spsc(3);
}

fn queue_mpsc(capacity: usize) {
    const COUNT: usize = 25_000;
    const PRODUCER_THREADS: usize = 4;

    let mut queue = Queue::new(capacity);
    let mut schedule = Schedule(capacity as u64);
    let mut push_count = vec![0; COUNT];
    let mut next = vec![0; PRODUCER_THREADS];
    let mut popped = 0;
    while popped < COUNT * PRODUCER_THREADS {
        let thread = schedule.pick(PRODUCER_THREADS + 1);
        if thread < PRODUCER_THREADS {
            if next[thread] < COUNT && queue.push(next[thread]).is_ok() {
                next[thread] += 1;
            }
        } else if let Some(n) = pop(&mut queue) {
            push_count[n] += 1;
            popped += 1;
        }
    }

    for c in push_count {
        assert_eq!(c, PRODUCER_THREADS);
    }
}

#[test]
fn queue_mpsc_capacity_one() {
    queue_mpsc(1);
}
#[test]
fn queue_mpsc_capacity_two() {
    queue_mpsc(2);
}
#[test]
fn queue_mpsc_capacity_three() {
    queue_mpsc(3);
}

/// A thread, which performs one operation at each call and returns `true` once
/// it has terminated.
type Thread<T> = Box<dyn FnMut(&mut Queue<T>) -> bool>;

/// Runs the threads along all interleavings with a bounded number of preemptions.
fn explore<T, F>(preemption_bound: usize, mut program: F)
where
    F: FnMut() -> (Queue<T>, Vec<Thread<T>>, Box<dyn FnOnce(Queue<T>)>),
{
    let mut prefix: Vec<(usize, usize)> = Vec::new();
    loop {
        let mut at = 0;
        let mut pick = |options: usize| -> usize {
            if at == prefix.len() {
                prefix.push((0, options));
            }
            at += 1;
            prefix[at - 1].0
        };
        let (mut queue, threads, end) = program();
        let mut threads: Vec<Option<Thread<T>>> = threads.into_iter().map(Some).collect();
        let mut current = 0;
        let mut preemptions = 0;
        loop {
            let enabled: Vec<usize> = (0..threads.len())
                .filter(|i| threads[*i].is_some())
                .collect();
            if enabled.is_empty() {
                break;
            }
            if !enabled.contains(&current) {
                current = enabled[pick(enabled.len())];
            } else if preemptions < preemption_bound {
                let next = enabled[pick(enabled.len())];
                preemptions += (next != current) as usize;
                current = next;
            }
            let terminated = match threads[current].as_mut() {
                Some(thread) => thread(&mut queue),
                None => unreachable!(),
            };
            if terminated {
                threads[current] = None;
            }
        }
        end(queue);

        let mut found = false;
        while let Some((choice, options)) = prefix.pop() {
            if choice + 1 < options {
                prefix.push((choice + 1, options));
                found = true;
                break;
            }
        }
        if !found {
            break;
        }
    }
}

/// A consumer that receives messages until the queue is empty.
fn consumer(popped: Rc<Cell<usize>>) -> Thread<usize> {
    let mut lent: Option<MessageBorrow<usize>> = None;
    Box::new(move |queue| match lent.take() {
        Some(borrow) => {
            queue.release(borrow);
            false
        }
        None => match queue.pop() {
            Ok(borrow) => {
                popped.set(popped.get() + 1);
                lent = Some(borrow);
                false
            }
            Err(_) => true,
        },
    })
}

fn loom_queue_push_pop(
    max_push_per_thread: usize,
    producer_thread_count: usize,
    capacity: usize,
    preemption_bound: usize,
) {
    explore(preemption_bound, || {
        let pushed = Rc::new(Cell::new(0));
        let popped = Rc::new(Cell::new(0));
        let mut threads = vec![consumer(popped.clone())];
        for _ in 0..producer_thread_count {
            let pushed = pushed.clone();
            let mut i = 0;
            threads.push(Box::new(move |queue| {
                match queue.push(i) {
                    Ok(()) => {}
                    Err(PushError::Full(_)) => {
                        // A push can fail only if there is not enough capacity.
                        assert!(capacity < max_push_per_thread * producer_thread_count);
                        return true;
                    }
                    Err(PushError::Closed) => panic!(),
                }
                pushed.set(pushed.get() + 1);
                i += 1;
                i == max_push_per_thread
            }));
        }
        (
            Queue::new(capacity),
            threads,
            Box::new(move |mut queue| {
                while pop(&mut queue).is_some() {
                    popped.set(popped.get() + 1);
                }
                assert_eq!(pushed.get(), popped.get());
            }),
        )
    });
}

#[test]
fn loom_queue_push_pop_overflow() {
    loom_queue_push_pop(2, 2, 3, 5);
}
#[test]
fn loom_queue_push_pop_no_overflow() {
    loom_queue_push_pop(2, 2, 5, 5);
}
#[test]
fn loom_queue_push_pop_capacity_power_of_two_overflow() {
    loom_queue_push_pop(3, 2, 4, 5);
}
#[test]
fn loom_queue_push_pop_capacity_one_overflow() {
    loom_queue_push_pop(2, 2, 1, 5);
}
#[test]
fn loom_queue_push_pop_capacity_power_of_two_no_overflow() {
    loom_queue_push_pop(2, 2, 4, 5);
}
#[test]
fn loom_queue_push_pop_three_producers() {
    loom_queue_push_pop(2, 3, 3, 2);
}

#[test]
fn loom_queue_drop_items() {
    const CAPACITY: usize = 3;
    const PRODUCER_THREAD_COUNT: usize = 3;

    explore(4, || {
        let item = Rc::new(());
        let mut threads: Vec<Thread<Rc<()>>> = Vec::new();
        for _ in 0..PRODUCER_THREAD_COUNT {
            let mut item = Some(item.clone());
            threads.push(Box::new(move |queue| {
                assert!(matches!(queue.push(item.take().unwrap()), Ok(_)));
                true
            }));
        }
        (
            Queue::new(CAPACITY),
            threads,
            Box::new(move |queue| {
                drop(queue);
                assert_eq!(Rc::strong_count(&item), 1);
            }),
        )
    });
}

/// A thread that attempts to push a message.
fn try_push(message: usize, success: Rc<Cell<bool>>) -> Thread<usize> {
    Box::new(move |queue| {
        match queue.push(message) {
            Ok(()) => success.set(true),
            Err(PushError::Closed) => {}
            _ => panic!(),
        }
        true
    })
}

/// Receives messages until the queue is closed and returns their sum.
fn sum_until_closed(queue: &mut Queue<usize>) -> usize {
    let mut sum = 0;
    loop {
        match queue.pop() {
            Ok(borrow) => {
                sum += queue.release(borrow);
            }
            Err(PopError::Closed) => return sum,
            Err(PopError::Empty) => panic!("the queue should be closed"),
        }
    }
}

#[test]
fn loom_queue_closed_by_producer() {
    explore(3, || {
        let mut is_pushed = false;
        let push_close: Thread<usize> = Box::new(move |queue| {
            if is_pushed {
                queue.close();
                return true;
            }
            is_pushed = true;
            assert!(matches!(queue.push(7), Ok(_)));
            false
        });
        let success = Rc::new(Cell::new(false));
        // Some messages are received in the meantime.
        let sum = Rc::new(Cell::new(0));
        let partial_sum = sum.clone();
        let mut pops = 0;
        let partial: Thread<usize> = Box::new(move |queue| {
            partial_sum.set(partial_sum.get() + pop(queue).unwrap_or(0));
            pops += 1;
            pops == 2
        });
        (
            Queue::new(3),
            vec![push_close, try_push(13, success.clone()), partial],
            Box::new(move |mut queue| {
                let sum = sum.get() + sum_until_closed(&mut queue);
                if success.get() {
                    assert_eq!(sum, 7 + 13);
                } else {
                    assert_eq!(sum, 7);
                }
            }),
        )
    });
}

#[test]
fn loom_queue_closed_by_consumer() {
    explore(3, || {
        let success1 = Rc::new(Cell::new(false));
        let success2 = Rc::new(Cell::new(false));
        let close: Thread<usize> = Box::new(|queue| {
            queue.close();
            true
        });
        (
            Queue::new(3),
            vec![
                close,
                try_push(7, success1.clone()),
                try_push(13, success2.clone()),
            ],
            Box::new(move |mut queue| {
                let sum = sum_until_closed(&mut queue);
                match (success1.get(), success2.get()) {
                    (true, true) => assert_eq!(sum, 7 + 13),
                    (true, false) => assert_eq!(sum, 7),
                    (false, true) => assert_eq!(sum, 13),
                    (false, false) => {}
                }
            }),
        )
    });
}
