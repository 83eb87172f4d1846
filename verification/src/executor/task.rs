//! The life cycle of a task.
//!
//! The state of a task is a single word, so that it can be updated at once. It
//! is made, from the most to the least significant bit, of a wake count (31
//! bits), a reference count (31 bits), a `CLOSED` flag and a `POLLING` flag,
//! where the flags determine the phase of the task:
//!
//! - `Polling` (`POLLING` only): the future has not completed yet,
//! - `Completed` (no flag): the output has not been read yet,
//! - `Wind-down` (both flags): the task was cancelled while it was scheduled or
//!   polled, so the future still has to be dropped,
//! - `Closed` (`CLOSED` only): neither the future nor the output exist.

use vstd::prelude::*;

verus! {

/// Flag indicating that the future has not been polled to completion yet.
pub const POLLING: u64 = 1;

/// Flag indicating that the task has been cancelled or that the output has
/// already been moved out.
pub const CLOSED: u64 = 2;

/// A single reference count increment.
pub const REF_INC: u64 = 4;

/// A single wake count increment.
pub const WAKE_INC: u64 = 0x2_0000_0000;

/// Bit mask for the reference count.
pub const REF_MASK: u64 = 0x1_FFFF_FFFC;

/// Bit mask for the wake count.
pub const WAKE_MASK: u64 = 0xFFFF_FFFE_0000_0000;

/// The largest reference count or wake count.
pub const MAX_COUNT: u64 = 0x7FFF_FFFF;

/// A wake-up changes nothing but the wake count.
proof fn lemma_wake(w: u64)
    by (bit_vector)
    requires
        w >> 33 < 0x7FFF_FFFF,
    ensures
        w + 0x2_0000_0000 <= 0xFFFF_FFFF_FFFF_FFFF,
        ((w + 0x2_0000_0000) as u64) & 3 == w & 3,
        ((w + 0x2_0000_0000) as u64) & 0x1_FFFF_FFFC == w & 0x1_FFFF_FFFC,
        ((w + 0x2_0000_0000) as u64) >> 33 == (w >> 33) + 1,
{
}

/// A new reference changes nothing but the reference count.
proof fn lemma_add_ref(w: u64)
    by (bit_vector)
    requires
        (w & 0x1_FFFF_FFFC) >> 2 < 0x7FFF_FFFF,
    ensures
        w + 4 <= 0xFFFF_FFFF_FFFF_FFFF,
        ((w + 4) as u64) & 3 == w & 3,
        (((w + 4) as u64) & 0x1_FFFF_FFFC) >> 2 == ((w & 0x1_FFFF_FFFC) >> 2) + 1,
        ((w + 4) as u64) >> 33 == w >> 33,
{
}

/// A dropped reference changes nothing but the reference count.
proof fn lemma_drop_ref(w: u64)
    by (bit_vector)
    requires
        (w & 0x1_FFFF_FFFC) >> 2 > 0,
    ensures
        w - 4 >= 0,
        ((w - 4) as u64) & 3 == w & 3,
        (((w - 4) as u64) & 0x1_FFFF_FFFC) >> 2 == ((w & 0x1_FFFF_FFFC) >> 2) - 1,
        ((w - 4) as u64) >> 33 == w >> 33,
{
}

/// Subtracting whole wake count increments changes nothing but the wake count.
proof fn lemma_fewer_wakes(w: u64, count: u64)
    by (bit_vector)
    requires
        count & 0x1_FFFF_FFFF == 0,
        count >> 33 <= w >> 33,
    ensures
        w - count >= 0,
        ((w - count) as u64) & 3 == w & 3,
        ((w - count) as u64) & 0x1_FFFF_FFFC == w & 0x1_FFFF_FFFC,
        ((w - count) as u64) >> 33 == (w >> 33) - (count >> 33),
{
}

/// The flags change nothing but themselves.
proof fn lemma_flags(w: u64)
    by (bit_vector)
    ensures
        w & 1 == (w & 3) & 1,
        w & 2 == (w & 3) & 2,
        ((w | 2) & !1u64) & 1 == 0,
        ((w | 2) & !1u64) & 2 != 0,
        ((w | 2) & !1u64) & 0x1_FFFF_FFFC == w & 0x1_FFFF_FFFC,
        ((w | 2) & !1u64) >> 33 == w >> 33,
        (w | 2) & 1 == w & 1,
        (w | 2) & 2 != 0,
        (w | 2) & 0x1_FFFF_FFFC == w & 0x1_FFFF_FFFC,
        (w | 2) >> 33 == w >> 33,
        (w & !1u64) & 1 == 0,
        (w & !1u64) & 2 == w & 2,
        (w & !1u64) & 0x1_FFFF_FFFC == w & 0x1_FFFF_FFFC,
        (w & !1u64) >> 33 == w >> 33,
        (w & 0x1_FFFF_FFFC == 0) == ((w & 0x1_FFFF_FFFC) >> 2 == 0),
        (w & 0xFFFF_FFFE_0000_0000) & 0x1_FFFF_FFFF == 0,
        (w & 0xFFFF_FFFE_0000_0000) >> 33 == w >> 33,
        (w & 0xFFFF_FFFE_0000_0000 == 0) == (w >> 33 == 0),
        (w & (0xFFFF_FFFE_0000_0000u64 | 2u64) != 0) == (w >> 33 != 0 || w & 2 != 0),
{
}

/// The state of a task that has just been spawned.
proof fn lemma_spawned(refs: u64)
    by (bit_vector)
    requires
        refs <= 0x7FFF_FFFF,
    ensures
        1 + refs * 4 + 0x2_0000_0000 <= 0xFFFF_FFFF_FFFF_FFFF,
        ((1 + refs * 4 + 0x2_0000_0000) as u64) & 1 != 0,
        ((1 + refs * 4 + 0x2_0000_0000) as u64) & 2 == 0,
        (((1 + refs * 4 + 0x2_0000_0000) as u64) & 0x1_FFFF_FFFC) >> 2 == refs,
        ((1 + refs * 4 + 0x2_0000_0000) as u64) >> 33 == 1,
{
}

/// The state of a task.
#[derive(Clone, Copy, Debug, PartialEq, Eq, Structural)]
pub struct TaskState {
    word: u64,
}

impl TaskState {
    /// The word that holds the state.
    pub closed spec fn word(self) -> u64 {
        self.word
    }

    /// The `POLLING` flag.
    pub open spec fn polling(self) -> bool {
        self.word() & POLLING != 0
    }

    /// The `CLOSED` flag.
    pub open spec fn closed(self) -> bool {
        self.word() & CLOSED != 0
    }

    /// The number of references to the task, not counting the one that the
    /// executor holds while the task is scheduled or polled.
    pub open spec fn refs(self) -> int {
        ((self.word() & REF_MASK) >> 2) as int
    }

    /// The number of times that the task was awaken since it was last serviced.
    pub open spec fn wakes(self) -> int {
        (self.word() >> 33) as int
    }

    /// Whether the task is scheduled for polling or for being dropped.
    pub open spec fn scheduled(self) -> bool {
        self.polling() && (self.wakes() != 0 || self.closed())
    }

    /// Creates the state of a task that has just been spawned: the task is
    /// scheduled and has the given number of references.
    pub fn new(refs: u32) -> (state: Self)
        requires
            refs <= MAX_COUNT,
        ensures
            state.polling(),
            !state.closed(),
            state.refs() == refs,
            state.wakes() == 1,
    {
        proof {
            lemma_spawned(refs as u64);
        }
        TaskState { word: POLLING + refs as u64 * REF_INC + WAKE_INC }
    }

    /// Checks if one more wake-up can be counted.
    pub fn can_wake(&self) -> (r: bool)
        ensures
            r == (self.wakes() < MAX_COUNT),
    {
        self.word >> 33 < MAX_COUNT
    }

    /// Checks if one more reference can be counted.
    pub fn can_add_ref(&self) -> (r: bool)
        ensures
            r == (self.refs() < MAX_COUNT),
    {
        (self.word & REF_MASK) >> 2 < MAX_COUNT
    }

    /// Takes note that the task was awaken; returns `true` if it must be
    /// scheduled as a consequence.
    ///
    /// The task must be scheduled unless it already is or cannot be polled
    /// anymore.
    pub fn wake(&mut self) -> (schedule: bool)
        requires
            old(self).wakes() < MAX_COUNT,
        ensures
            schedule == (old(self).polling() && !old(self).scheduled()),
            final(self).wakes() == old(self).wakes() + 1,
            final(self).refs() == old(self).refs(),
            final(self).polling() == old(self).polling(),
            final(self).closed() == old(self).closed(),
    {
        let word: u64 = self.word;
        proof {
            lemma_wake(word);
            lemma_flags(word);
            lemma_flags((word + WAKE_INC) as u64);
        }
        self.word = word + WAKE_INC;
        word & POLLING != 0 && !runnable_exists(word)
    }

    /// Takes note of a new reference to the task.
    pub fn add_ref(&mut self)
        requires
            old(self).refs() < MAX_COUNT,
        ensures
            final(self).refs() == old(self).refs() + 1,
            final(self).wakes() == old(self).wakes(),
            final(self).polling() == old(self).polling(),
            final(self).closed() == old(self).closed(),
    {
        proof {
            lemma_add_ref(self.word);
            lemma_flags(self.word);
            lemma_flags((self.word + REF_INC) as u64);
        }
        self.word = self.word + REF_INC;
    }

    /// Takes note that a reference to the task was dropped.
    ///
    /// Returns `true` if this was the last one and the task is not scheduled,
    /// so that whatever is left of it must be dropped.
    pub fn drop_ref(&mut self) -> (last: bool)
        requires
            old(self).refs() > 0,
        ensures
            final(self).refs() == old(self).refs() - 1,
            final(self).wakes() == old(self).wakes(),
            final(self).polling() == old(self).polling(),
            final(self).closed() == old(self).closed(),
            last == (old(self).refs() == 1 && !old(self).scheduled()),
    {
        let word: u64 = self.word;
        proof {
            lemma_drop_ref(word);
            lemma_flags(word);
            lemma_flags((word - REF_INC) as u64);
        }
        self.word = word - REF_INC;
        self.word & REF_MASK == 0 && !runnable_exists(word)
    }

    /// Tells what is left of the task, so that it can be dropped with the last
    /// reference.
    pub fn remains(&self) -> (remains: Remains)
        ensures
            remains == (if self.polling() {
                Remains::Future
            } else if self.closed() {
                Remains::Nothing
            } else {
                Remains::Output
            }),
    {
        if self.word & POLLING != 0 {
            Remains::Future
        } else if self.is_closed() {
            Remains::Nothing
        } else {
            Remains::Output
        }
    }

    /// Cancels the task; returns `true` if the future must be dropped at once.
    ///
    /// The future is left to the executor if the task is scheduled or polled. A
    /// task that has completed cannot be cancelled.
    pub fn cancel(&mut self) -> (drop_future: bool)
        ensures
            drop_future == (old(self).polling() && !old(self).scheduled()),
            final(self).closed() == (old(self).polling() || old(self).closed()),
            final(self).polling() == (old(self).polling() && old(self).scheduled()),
            final(self).refs() == old(self).refs(),
            final(self).wakes() == old(self).wakes(),
    {
        let word: u64 = self.word;
        proof {
            lemma_flags(word);
        }
        if word & POLLING == 0 {
            false
        } else if runnable_exists(word) {
            // Enter the `Wind-down` phase.
            self.word = word | CLOSED;
            false
        } else {
            // Enter the `Closed` phase.
            self.close();
            true
        }
    }

    /// Determines the current stage of completion of the task. If it is ready,
    /// the output must be moved out.
    pub fn poll(&mut self) -> (stage: Stage<()>)
        ensures
            stage == (if old(self).closed() {
                Stage::Cancelled
            } else if old(self).polling() {
                Stage::Pending
            } else {
                Stage::Ready(())
            }),
            final(self).polling() == old(self).polling(),
            final(self).closed() == (old(self).closed() || !old(self).polling()),
            final(self).refs() == old(self).refs(),
            final(self).wakes() == old(self).wakes(),
    {
        proof {
            lemma_flags(self.word);
        }
        if self.is_closed() {
            Stage::Cancelled
        } else if self.word & POLLING != 0 {
            Stage::Pending
        } else {
            self.word = self.word | CLOSED;
            Stage::Ready(())
        }
    }

    /// Sets the `CLOSED` flag and clears the `POLLING` flag.
    fn close(&mut self)
        ensures
            final(self).closed(),
            !final(self).polling(),
            final(self).refs() == old(self).refs(),
            final(self).wakes() == old(self).wakes(),
    {
        proof {
            lemma_flags(self.word);
        }
        self.word = (self.word | CLOSED) & !POLLING;
    }

    /// Clears the `POLLING` flag.
    fn end_polling(&mut self)
        ensures
            final(self).closed() == old(self).closed(),
            !final(self).polling(),
            final(self).refs() == old(self).refs(),
            final(self).wakes() == old(self).wakes(),
    {
        proof {
            lemma_flags(self.word);
        }
        self.word = self.word & !POLLING;
    }

    /// Whether there are no references to the task.
    fn unreferenced(&self) -> (r: bool)
        ensures
            r == (self.refs() == 0),
    {
        proof {
            lemma_flags(self.word);
        }
        self.word & REF_MASK == 0
    }

    /// Whether the task was cancelled or its output moved out.
    fn is_closed(&self) -> (r: bool)
        ensures
            r == self.closed(),
    {
        proof {
            lemma_flags(self.word);
        }
        self.word & CLOSED != 0
    }
}

/// Checks if a task is scheduled based on its state.
pub fn runnable_exists(state: u64) -> (r: bool)
    ensures
        r == (state & POLLING != 0 && (state >> 33 != 0 || state & CLOSED != 0)),
{
    proof {
        lemma_flags(state);
    }
    state & POLLING != 0 && state & (WAKE_MASK | CLOSED) != 0
}

/// The stage of completion of a task.
#[derive(Debug, PartialEq, Eq)]
pub enum Stage<T> {
    /// The task has completed.
    Ready(T),
    /// The task is still being processed.
    Pending,
    /// The task has been cancelled, or its output was already moved out.
    Cancelled,
}

impl<T> Stage<T> {
    /// Maps a `Stage<T>` to `Stage<U>` by applying a function to a contained value.
    pub fn map<U, F>(self, f: F) -> (stage: Stage<U>) where F: FnOnce(T) -> U
        requires
            self matches Stage::Ready(t) ==> f.requires((t,)),
        ensures
            match self {
                Stage::Ready(t) => stage is Ready && f.ensures((t,), stage->Ready_0),
                Stage::Pending => stage is Pending,
                Stage::Cancelled => stage is Cancelled,
            },
    {
        match self {
            Stage::Ready(t) => Stage::Ready(f(t)),
            Stage::Pending => Stage::Pending,
            Stage::Cancelled => Stage::Cancelled,
        }
    }

    /// Returns `true` if the task is still being processed.
    pub fn is_pending(&self) -> (r: bool)
        ensures
            r == (*self is Pending),
    {
        matches!(self, Stage::Pending)
    }

    /// Returns `true` if the task has been cancelled.
    pub fn is_cancelled(&self) -> (r: bool)
        ensures
            r == (*self is Cancelled),
    {
        matches!(self, Stage::Cancelled)
    }
}

/// What is left of a task that is neither scheduled nor polled.
#[derive(Clone, Copy, Debug, PartialEq, Eq, Structural)]
pub enum Remains {
    /// The future has not completed.
    Future,
    /// The output has not been read.
    Output,
    /// There is neither a future nor an output.
    Nothing,
}

/// What is currently being done with a task.
#[derive(Clone, Copy, Debug, PartialEq, Eq, Structural)]
pub enum RunPhase {
    /// The task has not been serviced yet.
    Scheduled,
    /// The future is polled.
    Polling,
    /// The future is dropped because the task was cancelled or panicked.
    Cancelling,
    /// The future is dropped because the task can never be awaken again.
    Expiring,
    /// The output is dropped because nobody can read it.
    WindingDown,
    /// The task has been serviced.
    Finished,
}

/// What happened to a task.
#[derive(Clone, Copy, Debug, PartialEq, Eq, Structural)]
pub enum RunEvent {
    /// The executor has picked the task.
    Picked,
    /// The future was polled and is not ready.
    Pending,
    /// The future was polled to completion, was dropped and its output was
    /// published.
    Ready,
    /// The future has panicked when polled.
    Panicked,
    /// The future was dropped.
    FutureDropped,
    /// The output was dropped.
    OutputDropped,
    /// The future was polled to completion but either the future or the output
    /// has panicked when dropped.
    DropPanicked,
}

/// What must be done with a task.
#[derive(Clone, Copy, Debug, PartialEq, Eq, Structural)]
pub enum RunAction {
    /// Poll the future.
    Poll,
    /// Drop the future.
    DropFuture,
    /// Drop the output.
    DropOutput,
    /// Return to the executor.
    Return,
    /// Deallocate the task and return to the executor.
    Deallocate,
}

/// A scheduled task that is being serviced.
///
/// This tracks the wake count as of the last time that the future was polled.
/// Rather than a flag that would have to be reset before polling, the count is
/// compared with the current one after polling, which tells whether the task
/// was awaken in the meantime.
pub struct Runnable {
    wake_count: u64,
    phase: RunPhase,
}

impl Runnable {
    /// What is being done with the task.
    pub closed spec fn phase(self) -> RunPhase {
        self.phase
    }

    /// The wake count as of the last time that the future was polled.
    pub closed spec fn serviced(self) -> int {
        (self.wake_count >> 33) as int
    }

    /// The wake count is a whole number of increments.
    pub closed spec fn wf(self) -> bool {
        self.wake_count & 0x1_FFFF_FFFF == 0
    }

    /// Whether an event can occur in the current phase.
    pub open spec fn expects(self, event: RunEvent) -> bool {
        match event {
            RunEvent::Picked => self.phase() is Scheduled,
            RunEvent::Pending | RunEvent::Ready | RunEvent::Panicked => self.phase() is Polling,
            RunEvent::FutureDropped => self.phase() is Cancelling || self.phase() is Expiring,
            RunEvent::OutputDropped => self.phase() is WindingDown,
            RunEvent::DropPanicked => self.phase() is Polling || self.phase() is WindingDown,
        }
    }

    /// Whether the state of a task only differs by its flags.
    pub open spec fn same_counts(a: TaskState, b: TaskState) -> bool {
        a.refs() == b.refs() && a.wakes() == b.wakes()
    }

    /// What an event does to a task.
    pub open spec fn serviced_by(
        before: Self,
        state: TaskState,
        event: RunEvent,
        action: RunAction,
        after: Self,
        new_state: TaskState,
    ) -> bool {
        match event {
            RunEvent::Picked => {
                &&& new_state == state
                &&& after.serviced() == state.wakes()
                &&& action == (if state.closed() {
                    RunAction::DropFuture
                } else {
                    RunAction::Poll
                })
            },
            RunEvent::Pending => {
                &&& new_state.wakes() == state.wakes() - before.serviced()
                &&& new_state.refs() == state.refs()
                &&& new_state.polling() == state.polling()
                &&& new_state.closed() == state.closed()
                &&& after.serviced() == new_state.wakes()
                &&& action == (if state.closed() {
                    RunAction::DropFuture
                } else if new_state.wakes() != 0 {
                    RunAction::Poll
                } else if state.refs() == 0 {
                    RunAction::DropFuture
                } else {
                    RunAction::Return
                })
            },
            RunEvent::Ready => {
                if !state.closed() && state.refs() != 0 {
                    &&& action is Return
                    &&& !new_state.polling()
                    &&& !new_state.closed()
                    &&& Self::same_counts(new_state, state)
                } else {
                    &&& action is DropOutput
                    &&& new_state == state
                }
            },
            RunEvent::Panicked => {
                &&& action is DropFuture
                &&& new_state == state
            },
            RunEvent::FutureDropped => {
                if before.phase() is Cancelling {
                    &&& action == (if state.refs() == 0 {
                        RunAction::Deallocate
                    } else {
                        RunAction::Return
                    })
                    &&& new_state.closed()
                    &&& !new_state.polling()
                    &&& Self::same_counts(new_state, state)
                } else {
                    &&& action is Deallocate
                    &&& new_state == state
                }
            },
            RunEvent::OutputDropped => {
                &&& action == (if state.refs() == 0 {
                    RunAction::Deallocate
                } else {
                    RunAction::Return
                })
                &&& !new_state.polling()
                &&& new_state.closed() == state.closed()
                &&& Self::same_counts(new_state, state)
            },
            RunEvent::DropPanicked => {
                &&& action == (if state.refs() == 0 {
                    RunAction::Deallocate
                } else {
                    RunAction::Return
                })
                &&& !new_state.polling()
                &&& new_state.closed()
                &&& Self::same_counts(new_state, state)
            },
        }
    }

    /// What is being done with the task after a decision was taken.
    pub open spec fn phase_after(before: RunPhase, state: TaskState, event: RunEvent, action:
        RunAction) -> RunPhase {
        match action {
            RunAction::Poll => RunPhase::Polling,
            RunAction::DropFuture => if event is Pending && !state.closed() {
                RunPhase::Expiring
            } else {
                RunPhase::Cancelling
            },
            RunAction::DropOutput => RunPhase::WindingDown,
            RunAction::Return | RunAction::Deallocate => RunPhase::Finished,
        }
    }

    /// Creates a handle to a scheduled task.
    pub fn new() -> (runnable: Self)
        ensures
            runnable.wf(),
            runnable.phase() is Scheduled,
    {
        assert(0u64 & 0x1_FFFF_FFFF == 0) by (bit_vector);
        Runnable { wake_count: 0, phase: RunPhase::Scheduled }
    }

    /// Decides what to do with the task after an event.
    ///
    /// The task must not have completed before. Between two events, the wake
    /// count can only have increased.
    pub fn run(&mut self, state: &mut TaskState, event: RunEvent) -> (action: RunAction)
        requires
            old(self).wf(),
            old(self).expects(event),
            event is Pending ==> old(state).wakes() >= old(self).serviced(),
        ensures
            final(self).wf(),
            Self::serviced_by(*old(self), *old(state), event, action, *final(self), *final(state)),
            final(self).phase() == Self::phase_after(
                old(self).phase(),
                *old(state),
                event,
                action,
            ),
    {
        match event {
            RunEvent::Picked => {
                proof {
                    lemma_flags(state.word);
                }
                self.wake_count = state.word & WAKE_MASK;
                self.poll_or_cancel(state.is_closed())
            },
            RunEvent::Pending => self.after_pending(state),
            RunEvent::Ready => {
                // Enter the `Completed` phase, unless the task has transitioned
                // to the `Wind-down` phase or unless there are no references
                // to the task.
                if state.is_closed() || state.unreferenced() {
                    self.phase = RunPhase::WindingDown;
                    RunAction::DropOutput
                } else {
                    state.end_polling();
                    self.phase = RunPhase::Finished;
                    RunAction::Return
                }
            },
            RunEvent::Panicked => {
                self.phase = RunPhase::Cancelling;
                RunAction::DropFuture
            },
            RunEvent::FutureDropped => {
                match self.phase {
                    RunPhase::Cancelling => {
                        // Enter the `Closed` phase.
                        state.close();
                        self.finish(state.unreferenced())
                    },
                    _ => self.finish(true),
                }
            },
            RunEvent::OutputDropped => {
                state.end_polling();
                self.finish(state.unreferenced())
            },
            RunEvent::DropPanicked => {
                // Enter the `Closed` phase.
                state.close();
                self.finish(state.unreferenced())
            },
        }
    }

    /// Decides what to do with the task after its future was polled and found
    /// not to be ready.
    fn after_pending(&mut self, state: &mut TaskState) -> (action: RunAction)
        requires
            old(self).wf(),
            old(self).expects(RunEvent::Pending),
            old(state).wakes() >= old(self).serviced(),
        ensures
            final(self).wf(),
            Self::serviced_by(
                *old(self),
                *old(state),
                RunEvent::Pending,
                action,
                *final(self),
                *final(state),
            ),
            final(self).phase() == Self::phase_after(
                old(self).phase(),
                *old(state),
                RunEvent::Pending,
                action,
            ),
    {
        // Reset the wake count.
        let closed = state.is_closed();
        proof {
            lemma_fewer_wakes(state.word, self.wake_count);
            lemma_flags(state.word);
        }
        state.word = state.word - self.wake_count;
        proof {
            lemma_flags(state.word);
        }
        self.wake_count = state.word & WAKE_MASK;

        // Return now if the wake count has been successfully cleared, provided
        // that the task was not concurrently cancelled.
        if self.wake_count == 0 && !closed {
            // If there are no task references left, the task can never be
            // scheduled again.
            if state.unreferenced() {
                self.phase = RunPhase::Expiring;
                RunAction::DropFuture
            } else {
                self.phase = RunPhase::Finished;
                RunAction::Return
            }
        } else {
            self.poll_or_cancel(closed)
        }
    }

    /// Polls the future, unless the task was cancelled.
    fn poll_or_cancel(&mut self, closed: bool) -> (action: RunAction)
        ensures
            final(self).wake_count == old(self).wake_count,
            final(self).phase == (if closed {
                RunPhase::Cancelling
            } else {
                RunPhase::Polling
            }),
            action == (if closed {
                RunAction::DropFuture
            } else {
                RunAction::Poll
            }),
    {
        if closed {
            self.phase = RunPhase::Cancelling;
            RunAction::DropFuture
        } else {
            self.phase = RunPhase::Polling;
            RunAction::Poll
        }
    }

    /// Ends the service of the task.
    fn finish(&mut self, deallocate: bool) -> (action: RunAction)
        ensures
            final(self).wake_count == old(self).wake_count,
            final(self).phase == RunPhase::Finished,
            action == (if deallocate {
                RunAction::Deallocate
            } else {
                RunAction::Return
            }),
    {
        self.phase = RunPhase::Finished;
        if deallocate {
            RunAction::Deallocate
        } else {
            RunAction::Return
        }
    }

    /// Cancels a scheduled task without polling it, once its future has been
    /// dropped; returns `true` if the task must be deallocated.
    pub fn cancel(self, state: &mut TaskState) -> (deallocate: bool)
        requires
            self.phase() is Scheduled,
        ensures
            final(state).closed(),
            !final(state).polling(),
            final(state).refs() == old(state).refs(),
            final(state).wakes() == old(state).wakes(),
            deallocate == (old(state).refs() == 0),
    {
        state.close();
        state.unreferenced()
    }
}

/// No wake-up is lost: if a task is awaken while its future is polled and the
/// future is not ready, the future is polled again, unless the task was
/// cancelled.
pub proof fn law_polled_again_when_awaken(
    picked: Runnable,
    at_poll: TaskState,
    now: TaskState,
    action: RunAction,
    after: Runnable,
    new_state: TaskState,
)
    requires
        picked.serviced() == at_poll.wakes(),
        now.wakes() > at_poll.wakes(),
        !now.closed(),
        Runnable::serviced_by(picked, now, RunEvent::Pending, action, after, new_state),
    ensures
        action is Poll,
{
}

/// A task that was left with a pending future is not scheduled, so that the
/// next wake-up schedules it.
pub proof fn law_left_idle_until_awaken(
    runnable: Runnable,
    now: TaskState,
    action: RunAction,
    after: Runnable,
    new_state: TaskState,
)
    requires
        now.polling(),
        Runnable::serviced_by(runnable, now, RunEvent::Pending, action, after, new_state),
        action is Return,
    ensures
        !new_state.scheduled(),
        new_state.polling(),
        !new_state.closed(),
        new_state.refs() > 0,
{
}

/// A task is deallocated only once nothing refers to it, given that nothing can
/// refer anew to a task that expires.
pub proof fn law_deallocated_only_when_unreferenced(
    runnable: Runnable,
    state: TaskState,
    event: RunEvent,
    action: RunAction,
    after: Runnable,
    new_state: TaskState,
)
    requires
        runnable.expects(event),
        Runnable::serviced_by(runnable, state, event, action, after, new_state),
        action is Deallocate,
        runnable.phase() is Expiring ==> state.refs() == 0,
    ensures
        new_state.refs() == 0,
        !new_state.scheduled() || runnable.phase() is Expiring,
{
}

/// A task expires only if nothing refers to it.
pub proof fn law_expires_only_when_unreferenced(
    runnable: Runnable,
    state: TaskState,
    event: RunEvent,
    action: RunAction,
    after: Runnable,
    new_state: TaskState,
)
    requires
        runnable.expects(event),
        Runnable::serviced_by(runnable, state, event, action, after, new_state),
        after.phase() == Runnable::phase_after(runnable.phase(), state, event, action),
        after.phase() is Expiring,
    ensures
        new_state.refs() == 0,
{
}

/// A cancelled task is never polled again: if it is scheduled or about to be
/// polled anew, its future is dropped instead.
pub proof fn law_cancelled_task_is_not_polled(
    runnable: Runnable,
    state: TaskState,
    event: RunEvent,
    action: RunAction,
    after: Runnable,
    new_state: TaskState,
)
    requires
        state.closed(),
        Runnable::serviced_by(runnable, state, event, action, after, new_state),
    ensures
        action !is Poll,
        new_state.closed(),
{
}

/// The two flags and the two counts make up the whole state of a task, and none of them
/// affects any other.
pub proof fn law_state_word(state: TaskState)
    ensures
        state.word() == state.wakes() * 0x2_0000_0000 + state.refs() * 4 + (if state.closed() {
            2int
        } else {
            0
        }) + (if state.polling() {
            1int
        } else {
            0
        }),
        0 <= state.refs() <= 0x7FFF_FFFF,
        0 <= state.wakes() <= 0x7FFF_FFFF,
        state.scheduled() <==> state.polling() && (state.closed() || state.wakes() > 0),
{
    lemma_parts(state.word());
}

proof fn lemma_parts(w: u64)
    by (bit_vector)
    ensures
        w == (w >> 33) * 0x2_0000_0000 + ((w & 0x1_FFFF_FFFC) >> 2) * 4 + (w & 2) + (w & 1),
        (w & 2) == 0 || (w & 2) == 2,
        (w & 1) == 0 || (w & 1) == 1,
        (w & 0x1_FFFF_FFFC) >> 2 <= 0x7FFF_FFFF,
        w >> 33 <= 0x7FFF_FFFF,
{
}

/// What is done with a task and what becomes of it.
///
/// A task that is picked is polled unless it was cancelled. If its future is not ready,
/// the wake-ups that it was polled for are forgotten, and no others; it is polled again
/// if any other is left, and is let alone otherwise as long as anything refers to it. If
/// its future is ready, the output is kept if it can still be read. Whatever is dropped,
/// the task is deallocated if and only if nothing refers to it. The number of
/// references never changes.
pub proof fn law_service(
    runnable: Runnable,
    state: TaskState,
    event: RunEvent,
    action: RunAction,
    after: Runnable,
    new_state: TaskState,
)
    requires
        runnable.expects(event),
        runnable.phase() is Expiring ==> state.refs() == 0,
        Runnable::serviced_by(runnable, state, event, action, after, new_state),
    ensures
        new_state.refs() == state.refs(),
        new_state.wakes() == if event is Pending {
            state.wakes() - runnable.serviced()
        } else {
            state.wakes()
        },
        event is Picked || event is Pending ==> after.serviced() == new_state.wakes(),
        match event {
            RunEvent::Picked => new_state == state && (action is Poll <==> !state.closed()) && (
            action is DropFuture <==> state.closed()),
            RunEvent::Pending => {
                &&& action is Poll <==> !state.closed() && state.wakes() != runnable.serviced()
                &&& action is Return <==> !state.closed() && state.wakes() == runnable.serviced()
                    && state.refs() != 0
                &&& action is Poll || action is Return || action is DropFuture
                &&& new_state.polling() == state.polling()
                &&& new_state.closed() == state.closed()
            },
            RunEvent::Ready => {
                &&& action is Return <==> !state.closed() && state.refs() != 0
                &&& action is Return ==> !new_state.polling() && !new_state.closed()
                &&& action is Return || action is DropOutput && new_state == state
            },
            RunEvent::Panicked => action is DropFuture && new_state == state,
            RunEvent::FutureDropped | RunEvent::OutputDropped | RunEvent::DropPanicked => {
                &&& action is Deallocate <==> state.refs() == 0
                &&& action is Deallocate || action is Return
                &&& action is Return ==> !new_state.polling()
                &&& action is Return && !(event is OutputDropped) ==> new_state.closed()
            },
        },
{
}

/// What is being done with a task follows from the last decision: the future is polled
/// or dropped, the output is dropped, or the task has been serviced.
pub proof fn law_phases(before: RunPhase, state: TaskState, event: RunEvent, action: RunAction)
    ensures
        ({
            let phase = Runnable::phase_after(before, state, event, action);
            &&& phase is Polling <==> action is Poll
            &&& phase is Expiring <==> action is DropFuture && event is Pending && !state.closed()
            &&& phase is Cancelling <==> action is DropFuture && (!(event is Pending)
                || state.closed())
            &&& phase is WindingDown <==> action is DropOutput
            &&& phase is Finished <==> action is Return || action is Deallocate
        }),
{
}

} // verus!
