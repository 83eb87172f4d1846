//! Systematic exploration of the interleavings of a worker and its stealers.

use asynchronix::executor::queue::{pack_heads, unpack_heads, Queue, StealError};

type Worker = Queue<usize, 4>;

fn half(count: usize) -> usize {
    count - count / 2
}

/// Replays a program along all sequences of choices.
struct Choices {
    prefix: Vec<(usize, usize)>,
    at: usize,
}

impl Choices {
    fn new() -> Self {
        Choices {
            prefix: Vec::new(),
            at: 0,
        }
    }

    fn pick(&mut self, options: usize) -> usize {
        if self.at == self.prefix.len() {
            self.prefix.push((0, options));
        }
        let choice = self.prefix[self.at].0;
        self.at += 1;
        choice
    }

    fn advance(&mut self) -> bool {
        self.at = 0;
        while let Some((choice, options)) = self.prefix.pop() {
            if choice + 1 < options {
                self.prefix.push((choice + 1, options));
                return true;
            }
        }
        false
    }
}

/// Steals half of the items and counts them.
fn steal_half(worker: &mut Worker) -> usize {
    let mut dest_worker = Worker::new();

    if worker.steal_and_pop(&mut dest_worker, half).is_ok() {
        let mut n = 1;
        while dest_worker.pop().is_some() {
            n += 1;
        }

        n
    } else {
        0
    }
}

/// Lets the stealers steal at any point.
fn maybe_steal(choices: &mut Choices, worker: &mut Worker, stealers: &mut usize) -> usize {
    let mut n = 0;
    while *stealers > 0 && choices.pick(2) == 1 {
        *stealers -= 1;
        n += steal_half(worker);
    }
    n
}

#[test]
fn loom_queue_basic_steal() {
    const LOOP_COUNT: usize = 2;
    const ITEM_COUNT_PER_LOOP: usize = 3;

    let mut choices = Choices::new();
    loop {
        let mut worker = Worker::new();
        let mut stealers = 3;
        let mut n = 0;

        for _ in 0..LOOP_COUNT {
            for _ in 0..(ITEM_COUNT_PER_LOOP - 1) {
                if worker.push(42).is_err() {
                    n += 1;
                }
                n += maybe_steal(&mut choices, &mut worker, &mut stealers);
            }

            if worker.pop().is_some() {
                n += 1;
            }
            n += maybe_steal(&mut choices, &mut worker, &mut stealers);

            // Push another task
            if worker.push(42).is_err() {
                n += 1;
            }

            loop {
                n += maybe_steal(&mut choices, &mut worker, &mut stealers);
                if worker.pop().is_none() {
                    break;
                }
                n += 1;
            }
        }

        assert_eq!(ITEM_COUNT_PER_LOOP * LOOP_COUNT, n);
        if !choices.advance() {
            break;
        }
    }
}

#[test]
fn loom_queue_drain_overflow() {
    const ITEM_COUNT: usize = 7;

    let mut choices = Choices::new();
    loop {
        let mut worker = Worker::new();
        let mut stealers = 1;
        let mut n = 0;

        // Push an item, pop an item.
        assert_eq!(worker.push(42), Ok(()));
        n += maybe_steal(&mut choices, &mut worker, &mut stealers);
        if worker.pop().is_some() {
            n += 1;
        }

        for _ in 0..(ITEM_COUNT - 1) {
            n += maybe_steal(&mut choices, &mut worker, &mut stealers);
            if worker.push(42).is_err() {
                // Some of the old items are drained to make room for the new
                // item.
                match worker.drain(half) {
                    Ok(drain) => {
                        n += worker.drain_all(drain).len();
                        assert_eq!(worker.push(42), Ok(()));
                    }
                    Err(_) => panic!(),
                }
            }
        }

        n += maybe_steal(&mut choices, &mut worker, &mut stealers);
        while worker.pop().is_some() {
            n += 1;
        }

        assert_eq!(ITEM_COUNT, n);
        if !choices.advance() {
            break;
        }
    }
}

#[test]
fn loom_queue_multi_stealer() {
    const ITEM_COUNT: usize = 5;

    let mut choices = Choices::new();
    loop {
        let mut worker = Worker::new();
        let mut stealers = 2;
        let mut n = 0;

        for _ in 0..ITEM_COUNT {
            n += maybe_steal(&mut choices, &mut worker, &mut stealers);
            if worker.push(42).is_err() {
                n += 1;
            }
        }
        loop {
            n += maybe_steal(&mut choices, &mut worker, &mut stealers);
            if worker.pop().is_none() {
                break;
            }
            n += 1;
        }

        assert_eq!(ITEM_COUNT, n);
        if !choices.advance() {
            break;
        }
    }
}

#[test]
fn loom_queue_chained_steal() {
    let mut choices = Choices::new();
    loop {
        let mut w1 = Worker::new();
        let mut w2 = Worker::new();

        for _ in 0..4 {
            assert_eq!(w1.push(42), Ok(()));
            assert_eq!(w2.push(42), Ok(()));
        }

        let mut stealers = 1;
        let mut n = 0;
        loop {
            n += maybe_steal(&mut choices, &mut w1, &mut stealers);
            if w1.pop().is_none() {
                break;
            }
            n += 1;
        }

        if w2.steal_and_pop(&mut w1, half).is_ok() {
            n += 1;
        }
        n += maybe_steal(&mut choices, &mut w1, &mut stealers);

        while w1.pop().is_some() {
            n += 1;
        }
        while w2.pop().is_some() {
            n += 1;
        }

        assert_eq!(n, 8);
        if !choices.advance() {
            break;
        }
    }
}

#[test]
fn loom_queue_push_and_steal() {
    let mut choices = Choices::new();
    loop {
        let mut worker = Worker::new();
        let mut stealers = 2;
        let mut n = 0;

        n += maybe_steal(&mut choices, &mut worker, &mut stealers);
        assert_eq!(worker.push(42), Ok(()));
        n += maybe_steal(&mut choices, &mut worker, &mut stealers);
        assert_eq!(worker.push(42), Ok(()));

        loop {
            n += maybe_steal(&mut choices, &mut worker, &mut stealers);
            if worker.pop().is_none() {
                break;
            }
            n += 1;
        }

        assert_eq!(n, 2);
        if !choices.advance() {
            break;
        }
    }
}

#[test]
fn loom_queue_extend() {
    let mut choices = Choices::new();
    loop {
        let mut worker = Worker::new();
        let mut stealers = 2;
        let mut n = 0;

        n += maybe_steal(&mut choices, &mut worker, &mut stealers);
        assert_eq!(worker.push(1), Ok(()));
        n += maybe_steal(&mut choices, &mut worker, &mut stealers);
        assert_eq!(worker.push(7), Ok(()));
        n += maybe_steal(&mut choices, &mut worker, &mut stealers);

        // Try to fill up the queue.
        let spare_capacity = worker.spare_capacity();
        assert!(spare_capacity >= 2);
        n += maybe_steal(&mut choices, &mut worker, &mut stealers);
        worker.extend((0..spare_capacity).collect());

        n += maybe_steal(&mut choices, &mut worker, &mut stealers);
        while worker.pop().is_some() {
            n += 1;
        }

        assert_eq!(2 + spare_capacity, n);
        if !choices.advance() {
            break;
        }
    }
}

#[test]
fn queue_stealing_takes_the_oldest_items() {
    let mut worker = Worker::new();
    for i in 0..4 {
        assert_eq!(worker.push(i), Ok(()));
    }
    assert_eq!(worker.push(4), Err(4));

    let mut dest = Worker::new();
    // Two items are stolen, the last of which is popped at once.
    assert_eq!(worker.steal_and_pop(&mut dest, half), Ok(1));
    assert_eq!(dest.pop(), Some(0));
    assert_eq!(dest.pop(), None);
    assert_eq!(worker.pop(), Some(2));
    assert_eq!(worker.pop(), Some(3));
    assert_eq!(worker.pop(), None);
}

#[test]
fn queue_is_busy_while_it_is_drained() {
    let mut worker = Worker::new();
    for i in 0..3 {
        assert_eq!(worker.push(i), Ok(()));
    }
    let mut drain = match worker.drain(half) {
        Ok(drain) => drain,
        Err(_) => panic!(),
    };
    let mut dest = Worker::new();
    assert_eq!(worker.steal_and_pop(&mut dest, half), Err(StealError::Busy));
    assert_eq!(worker.next_drained(&mut drain), Some(0));
    assert_eq!(worker.next_drained(&mut drain), Some(1));
    assert_eq!(worker.next_drained(&mut drain), None);
    assert_eq!(worker.steal_and_pop(&mut dest, half), Ok(2));
    assert_eq!(worker.steal_and_pop(&mut dest, half), Err(StealError::Empty));
}

#[test]
fn steal_error_texts() {
    assert_eq!(StealError::Empty.to_text(), "cannot steal from empty queue");
    assert_eq!(
        StealError::Busy.to_text(),
        "a concurrent steal operation is ongoing"
    );
}

#[test]
fn heads_round_trip() {
    assert_eq!(unpack_heads(pack_heads(3, 0xffff_ffff)), (3, 0xffff_ffff));
    assert_eq!(unpack_heads(pack_heads(0xdead_beef, 7)), (0xdead_beef, 7));
}
