//! Systematic exploration of the interleavings of notifications and waiters.

use asynchronix::channel::event::{Event, WaitAction, WaitEvent, WaitUntil};

/// Replays a program along all sequences of choices.
struct Choices {
    prefix: Vec<(usize, usize)>,
    at: usize,
}

impl Choices {
    fn new() -> Self {
        Choices {
            prefix: Vec::new(),
            at: 0,
        }
    }

    /// Makes a choice among several options.
    fn pick(&mut self, options: usize) -> usize {
        if self.at == self.prefix.len() {
            self.prefix.push((0, options));
        }
        let choice = self.prefix[self.at].0;
        self.at += 1;
        choice
    }

    /// Moves to the next sequence of choices, if there is one.
    fn advance(&mut self) -> bool {
        self.at = 0;
        while let Some((choice, options)) = self.prefix.pop() {
            if choice + 1 < options {
                self.prefix.push((choice + 1, options));
                return true;
            }
        }
        false
    }
}

/// A waker factory that accepts notifications from the newest waker only.
#[derive(Clone, Copy, Default)]
struct MultiWaker {
    epoch: u64,
    notified: bool,
}

impl MultiWaker {
    fn new_waker(&mut self, index: usize) -> u64 {
        self.epoch += 1;
        self.notified = false;
        self.epoch * 16 + index as u64
    }

    fn take_notification(&mut self) -> bool {
        let notified = self.notified;
        self.notified = false;
        notified
    }
}

fn wake(wakers: &mut Vec<MultiWaker>, waker: u64) {
    let index = (waker % 16) as usize;
    if wakers[index].epoch == waker / 16 {
        wakers[index].notified = true;
    }
}

#[derive(Clone, Copy, PartialEq)]
enum Step {
    Poll,
    Check,
    Decide,
    Completed,
    Suspended,
    Cancelled,
}

struct Waiter {
    wait: WaitUntil,
    waker: u64,
    step: Step,
    spurious_wake: bool,
}

/// Makes a certain amount of tokens available and notifies as many waiters among
/// all registered waiters. Optionally, it is possible to:
/// - request that `max_spurious_wake` waiters simulate a spurious wake-up if they
///   are polled and suspended,
/// - request that `max_cancellations` waiters be cancelled if they are polled and
///   suspended,
/// - change the waker each time a waiter is polled.
fn loom_event_notify(
    token_count: usize,
    waiter_count: usize,
    max_spurious_wake: usize,
    max_cancellations: usize,
    change_waker: bool,
    preemption_bound: usize,
) {
    let mut choices = Choices::new();
    let mut runs = 0;

    loop {
        let mut event = Event::new();
        let mut tokens = 0usize;
        let mut wakers = vec![MultiWaker::default(); waiter_count];
        let mut waiters: Vec<Waiter> = Vec::new();
        for i in 0..waiter_count {
            let waker = wakers[i].new_waker(i);
            waiters.push(Waiter {
                wait: event.wait_until(),
                waker,
                step: Step::Poll,
                spurious_wake: i >= max_cancellations
                    && i < (max_cancellations + max_spurious_wake),
            });
        }
        // The last thread is the notifier, which alternates between the
        // increment of the count of tokens and a notification.
        let mut notifier_steps = 0;
        let mut current = waiter_count;
        let mut preemptions = 0;

        loop {
            let mut enabled: Vec<usize> = Vec::new();
            for i in 0..waiter_count {
                if !matches!(
                    waiters[i].step,
                    Step::Completed | Step::Suspended | Step::Cancelled
                ) {
                    enabled.push(i);
                }
            }
            if notifier_steps < 2 * token_count {
                enabled.push(waiter_count);
            }
            if enabled.is_empty() {
                break;
            }
            let can_go_on = enabled.contains(&current);
            let thread = if can_go_on && preemptions == preemption_bound {
                current
            } else {
                enabled[choices.pick(enabled.len())]
            };
            if can_go_on && thread != current {
                preemptions += 1;
            }
            current = thread;

            if thread == waiter_count {
                if notifier_steps % 2 == 0 {
                    tokens += 1;
                } else {
                    for waker in event.notify(1) {
                        wake(&mut wakers, waker);
                    }
                }
                notifier_steps += 1;
                continue;
            }

            let waiter = &mut waiters[thread];
            let action = match waiter.step {
                Step::Poll => Some(event.poll(&mut waiter.wait, WaitEvent::Poll(waiter.waker))),
                Step::Check => {
                    let satisfied = tokens > 0;
                    if satisfied {
                        tokens -= 1;
                    }
                    Some(event.poll(&mut waiter.wait, WaitEvent::Checked(satisfied)))
                }
                _ => None,
            };
            match action {
                Some(WaitAction::Check) => waiter.step = Step::Check,
                Some(WaitAction::Pending) => waiter.step = Step::Decide,
                Some(WaitAction::Ready(woken)) => {
                    waiter.step = Step::Completed;
                    if let Some(waker) = woken {
                        wake(&mut wakers, waker);
                    }
                }
                None => {
                    // The waiter was suspended. Depending on the situation, it
                    // is cancelled, waits for a notification or polls again.
                    if thread < max_cancellations {
                        waiter.step = Step::Cancelled;
                        if let Some(waker) = event.abandon(&mut waiter.wait) {
                            wake(&mut wakers, waker);
                        }
                        continue;
                    }
                    let spurious_wake = waiter.spurious_wake;
                    waiter.spurious_wake = false;
                    let notified = wakers[thread].take_notification();
                    if !spurious_wake && !notified {
                        waiters[thread].step = Step::Suspended;
                        continue;
                    }
                    if change_waker {
                        waiters[thread].waker = wakers[thread].new_waker(thread);
                    }
                    waiters[thread].step = Step::Poll;
                }
            }
        }

        // Count how many waiters have either succeeded or have been notified,
        // excluding those which were cancelled.
        let mut count = 0;
        for i in 0..waiter_count {
            let success = waiters[i].step == Step::Completed;
            let notified = wakers[i].take_notification() && i >= max_cancellations;
            if success || notified {
                count += 1;
            }
        }
        let min_expected_success_count = token_count.min(waiter_count - max_cancellations);
        assert!(count >= min_expected_success_count);

        runs += 1;
        if !choices.advance() {
            break;
        }
    }
    assert!(runs > 1);
}

#[test]
fn loom_event_two_consumers() {
    const DEFAULT_PREEMPTION_BOUND: usize = 4;
    loom_event_notify(2, 2, 0, 0, false, DEFAULT_PREEMPTION_BOUND);
}
#[test]
fn loom_event_two_consumers_spurious() {
    const DEFAULT_PREEMPTION_BOUND: usize = 4;
    loom_event_notify(2, 2, 1, 0, false, DEFAULT_PREEMPTION_BOUND);
}
#[test]
fn loom_event_two_consumers_cancellation() {
    const DEFAULT_PREEMPTION_BOUND: usize = 4;
    loom_event_notify(2, 2, 1, 1, false, DEFAULT_PREEMPTION_BOUND);
}
#[test]
fn loom_event_two_consumers_change_waker() {
    const DEFAULT_PREEMPTION_BOUND: usize = 4;
    loom_event_notify(2, 2, 0, 0, true, DEFAULT_PREEMPTION_BOUND);
}
#[test]
fn loom_event_two_consumers_change_waker_spurious() {
    const DEFAULT_PREEMPTION_BOUND: usize = 4;
    loom_event_notify(2, 2, 1, 0, true, DEFAULT_PREEMPTION_BOUND);
}
#[test]
fn loom_event_two_consumers_change_waker_cancellation() {
    const DEFAULT_PREEMPTION_BOUND: usize = 4;
    loom_event_notify(1, 2, 0, 1, true, DEFAULT_PREEMPTION_BOUND);
}
#[test]
fn loom_event_two_consumers_change_waker_spurious_cancellation() {
    const DEFAULT_PREEMPTION_BOUND: usize = 4;
    loom_event_notify(2, 2, 1, 1, true, DEFAULT_PREEMPTION_BOUND);
}
#[test]
fn loom_event_two_consumers_three_tokens() {
    const DEFAULT_PREEMPTION_BOUND: usize = 3;
    loom_event_notify(3, 2, 0, 0, false, DEFAULT_PREEMPTION_BOUND);
}
#[test]
fn loom_event_three_consumers() {
    const DEFAULT_PREEMPTION_BOUND: usize = 2;
    loom_event_notify(3, 3, 0, 0, false, DEFAULT_PREEMPTION_BOUND);
}
#[test]
fn loom_event_three_consumers_spurious() {
    const DEFAULT_PREEMPTION_BOUND: usize = 2;
    loom_event_notify(3, 3, 1, 0, false, DEFAULT_PREEMPTION_BOUND);
}
#[test]
fn loom_event_three_consumers_cancellation() {
    const DEFAULT_PREEMPTION_BOUND: usize = 2;
    loom_event_notify(2, 3, 0, 1, false, DEFAULT_PREEMPTION_BOUND);
}
#[test]
fn loom_event_three_consumers_change_waker() {
    const DEFAULT_PREEMPTION_BOUND: usize = 2;
    loom_event_notify(3, 3, 0, 0, true, DEFAULT_PREEMPTION_BOUND);
}
#[test]
fn loom_event_three_consumers_change_waker_spurious() {
    const DEFAULT_PREEMPTION_BOUND: usize = 2;
    loom_event_notify(3, 3, 1, 0, true, DEFAULT_PREEMPTION_BOUND);
}
#[test]
fn loom_event_three_consumers_change_waker_cancellation() {
    const DEFAULT_PREEMPTION_BOUND: usize = 2;
    loom_event_notify(3, 3, 0, 1, true, DEFAULT_PREEMPTION_BOUND);
}
#[test]
fn loom_event_three_consumers_change_waker_spurious_cancellation() {
    const DEFAULT_PREEMPTION_BOUND: usize = 2;
    loom_event_notify(3, 3, 1, 1, true, DEFAULT_PREEMPTION_BOUND);
}
#[test]
fn loom_event_three_consumers_two_tokens() {
    const DEFAULT_PREEMPTION_BOUND: usize = 2;
    loom_event_notify(2, 3, 0, 0, false, DEFAULT_PREEMPTION_BOUND);
}

#[test]
fn event_notifies_in_order_of_registration() {
    let mut event = Event::new();
    let mut waits = vec![event.wait_until(), event.wait_until(), event.wait_until()];
    for (i, wait) in waits.iter_mut().enumerate() {
        assert_eq!(event.poll(wait, WaitEvent::Poll(i as u64)), WaitAction::Check);
        assert_eq!(event.poll(wait, WaitEvent::Checked(false)), WaitAction::Check);
        assert_eq!(event.poll(wait, WaitEvent::Checked(false)), WaitAction::Pending);
    }
    assert_eq!(event.notify(2), vec![0, 1]);
    assert_eq!(event.notify(2), vec![2]);
    assert!(event.notify(2).is_empty());
}

#[test]
fn event_passes_on_the_notification_of_an_abandoned_wait() {
    let mut event = Event::new();
    let mut first = event.wait_until();
    let mut second = event.wait_until();
    for (wait, waker) in [(&mut first, 1), (&mut second, 2)] {
        assert_eq!(event.poll(wait, WaitEvent::Poll(waker)), WaitAction::Check);
        assert_eq!(event.poll(wait, WaitEvent::Checked(false)), WaitAction::Check);
        assert_eq!(event.poll(wait, WaitEvent::Checked(false)), WaitAction::Pending);
    }
    assert_eq!(event.notify(1), vec![1]);
    // The first waiter was notified but goes away, so the second one is awaken.
    assert_eq!(event.abandon(&mut first), Some(2));
}
