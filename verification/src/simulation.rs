//! Simulation environment.
//!
//! A [`Simulation`] manages simulation time and the scheduling queue, and
//! decides what happens next. Clocks, which may block, and the executor, which
//! performs actions, are operated by the caller as told by the [`Command`]s
//! that it gets.

pub mod error;
pub mod model_id;
pub mod scheduler;

use vstd::prelude::*;

use crate::executor::ExecutorError;
use crate::time::{max_instant, Duration, MonotonicTime, SyncStatus};
use error::{DeadlockInfo, ExecutionError, PanicPayload};
use model_id::ModelId;
use scheduler::{
    all_after, cancelled, due, grouped, in_order, inserted, later, law_next_time,
    law_periodic_actions_are_repeated, law_sequences_are_complete,
    lemma_batch_leaves_later_actions, lemma_cancelled_times, lemma_inserted_times,
    lemma_kept_by_purge, lemma_live_after_batch, lemma_live_left, lemma_performed, lemma_purged,
    lemma_purged_twice, lemma_wider_bound, next_time, purged, repeatable, rescheduled, Action,
    Batch, ScheduledAction, SchedulerQueue, SchedulingError,
};

verus! {

/// What a simulation waits for.
#[derive(Clone, Copy, Debug)]
pub enum Phase {
    /// Nothing.
    Idle,
    /// The synchronization of the clock, after which actions are performed. The
    /// target time is that of a simulation that is being stepped until some
    /// deadline.
    Synchronizing { target: Option<MonotonicTime> },
    /// The completion of actions.
    Running { target: Option<MonotonicTime> },
    /// The synchronization of the clock, after which nothing is left to be
    /// done.
    Completing { reached: MonotonicTime },
}

/// What the caller must do.
pub enum Command {
    /// Spawn the given actions on the executor, synchronize the clock with the
    /// given time and report to [`Simulation::synchronized`].
    Step(Batch),
    /// Synchronize the clock with the given time and report to
    /// [`Simulation::synchronized`].
    Synchronize(MonotonicTime),
    /// Run the executor with the given timeout, if any, and report to
    /// [`Simulation::executed`].
    Run(Option<Duration>),
    /// Nothing: the request has completed.
    Done,
}

/// The models with messages in their mailboxes.
pub open spec fn deadlocked(observers: Seq<String>, mailbox_sizes: Seq<usize>) -> Seq<DeadlockInfo>
    decreases observers.len(),
{
    if observers.len() == 0 {
        Seq::empty()
    } else {
        let rest = deadlocked(observers.drop_last(), mailbox_sizes);
        let mailbox_size = mailbox_sizes[observers.len() - 1];
        if mailbox_size != 0 {
            rest.push(DeadlockInfo { model: observers.last(), mailbox_size })
        } else {
            rest
        }
    }
}

/// Simulation environment.
///
/// A [`Simulation`] object manages an event scheduling queue and simulation
/// time. A call to [`step`](Simulation::step):
///
/// 1. increments simulation time until that of the next scheduled event in
///    chronological order, then
/// 2. asks for the synchronization of the clock, and finally
/// 3. asks for all computations scheduled for the new simulation time to be
///    run.
///
/// The [`step_until`](Simulation::step_until) method operates similarly but
/// iterates until the target simulation time has been reached.
pub struct Simulation {
    scheduler_queue: SchedulerQueue,
    time: MonotonicTime,
    clock_tolerance: Option<Duration>,
    timeout: Duration,
    observers: Vec<String>,
    model_names: Vec<String>,
    is_terminated: bool,
    phase: Phase,
}

impl Simulation {
    /// The current simulation time.
    pub closed spec fn now(self) -> MonotonicTime {
        self.time
    }

    /// The scheduled actions.
    pub closed spec fn scheduled(self) -> Seq<ScheduledAction> {
        self.scheduler_queue@
    }

    /// The lag of the clock that is tolerated, if it is limited.
    pub closed spec fn tolerance(self) -> Option<Duration> {
        self.clock_tolerance
    }

    /// The time allocated for a step; a null duration if it is not limited.
    pub closed spec fn step_timeout(self) -> Duration {
        self.timeout
    }

    /// The time allocated for a step, if it is limited.
    pub open spec fn step_limit(self) -> Option<Duration> {
        if self.step_timeout()@ == 0 {
            None
        } else {
            Some(self.step_timeout())
        }
    }

    /// The names of the models with an observed mailbox.
    pub closed spec fn observed(self) -> Seq<String> {
        self.observers@
    }

    /// The names of the models.
    pub closed spec fn models(self) -> Seq<String> {
        self.model_names@
    }

    /// Whether a fatal error has occurred.
    pub closed spec fn terminated(self) -> bool {
        self.is_terminated
    }

    /// What the simulation waits for.
    pub closed spec fn awaiting(self) -> Phase {
        self.phase
    }

    /// The invariant of the simulation: all actions are scheduled in the future
    /// of the current simulation time, which does not exceed the target time.
    pub closed spec fn wf(self) -> bool {
        &&& self.scheduler_queue.wf()
        &&& all_after(self.scheduled(), self.now()@)
        &&& self.is_terminated ==> self.phase is Idle
        &&& match self.phase {
            Phase::Idle => true,
            Phase::Synchronizing { target } => target is Some ==> self.now()@ <= target->Some_0@,
            Phase::Running { target } => target is Some ==> self.now()@ <= target->Some_0@,
            Phase::Completing { reached } => self.now() == reached,
        }
    }

    /// Scheduled actions come in order.
    pub proof fn lemma_in_order(self)
        requires
            self.wf(),
        ensures
            in_order(self.scheduled()),
    {
    }

    /// Whether the next periodic actions, if they are to be performed at all, can
    /// be scheduled again.
    pub open spec fn can_repeat(self, bound: int) -> bool {
        self.terminated() || repeatable(self.scheduled(), bound)
    }

    /// Whether two simulations differ by nothing but their time, their
    /// scheduled actions and what they wait for.
    pub open spec fn same_bench(self, other: Self) -> bool {
        &&& self.tolerance() == other.tolerance()
        &&& self.step_timeout() == other.step_timeout()
        &&& self.observed() == other.observed()
        &&& self.models() == other.models()
        &&& self.terminated() == other.terminated()
    }

    /// The simulation time never lies in the future of a scheduled action, nor
    /// beyond the target time. A terminated simulation does not wait for
    /// anything.
    pub proof fn law_time(self)
        requires
            self.wf(),
        ensures
            self.terminated() ==> self.awaiting() is Idle,
            all_after(self.scheduled(), self.now()@),
            self.awaiting() matches Phase::Synchronizing { target: Some(target) } ==> self.now()@
                <= target@,
            self.awaiting() matches Phase::Running { target: Some(target) } ==> self.now()@
                <= target@,
            self.awaiting() matches Phase::Completing { reached } ==> self.now() == reached,
    {
    }

    /// Creates a new `Simulation`.
    ///
    /// All actions must be scheduled in the future of the initial simulation
    /// time.
    pub fn new(
        scheduler_queue: SchedulerQueue,
        time: MonotonicTime,
        clock_tolerance: Option<Duration>,
        timeout: Duration,
        observers: Vec<String>,
        model_names: Vec<String>,
    ) -> (simulation: Self)
        requires
            scheduler_queue.wf(),
            all_after(scheduler_queue@, time@),
        ensures
            simulation.wf(),
            simulation.scheduled() == scheduler_queue@,
            simulation.now() == time,
            simulation.tolerance() == clock_tolerance,
            simulation.step_timeout() == timeout,
            simulation.observed() == observers@,
            simulation.models() == model_names@,
            !simulation.terminated(),
            simulation.awaiting() is Idle,
    {
        Simulation {
            scheduler_queue,
            time,
            clock_tolerance,
            timeout,
            observers,
            model_names,
            is_terminated: false,
            phase: Phase::Idle,
        }
    }

    /// What happens when simulation time moves to that of the next action, up
    /// to the given bound.
    pub open spec fn moved(before: Self, bound: int, batch: Option<Batch>, after: Self) -> bool {
        let next = next_time(before.scheduled(), bound);
        &&& after.same_bench(before)
        &&& match batch {
            Some(batch) => {
                let performed = due(before.scheduled(), batch.time@);
                &&& next == Some(batch.time@)
                &&& batch.groups() == grouped(performed)
                &&& after.now() == batch.time
                &&& after.scheduled() == purged(
                    rescheduled(later(before.scheduled(), batch.time@), performed),
                    bound,
                )
            },
            None => {
                &&& next is None
                &&& after.now() == before.now()
                &&& after.scheduled() == purged(before.scheduled(), bound)
            },
        }
    }

    /// Advances simulation time to that of the next scheduled action if its
    /// scheduling time does not exceed the specified bound, taking that action
    /// as well as all other actions scheduled for the same time.
    fn step_to_next_bounded(&mut self, upper_time_bound: &MonotonicTime) -> (batch: Option<Batch>)
        requires
            old(self).wf(),
            repeatable(old(self).scheduled(), upper_time_bound@),
        ensures
            final(self).scheduler_queue.wf(),
            all_after(final(self).scheduled(), final(self).now()@),
            Self::moved(*old(self), upper_time_bound@, batch, *final(self)),
            final(self).awaiting() == old(self).awaiting(),
            batch is Some ==> old(self).now()@ < final(self).now()@ <= upper_time_bound@,
    {
        let batch = self.scheduler_queue.take_batch(upper_time_bound);
        proof {
            lemma_batch_leaves_later_actions(
                old(self).scheduled(),
                upper_time_bound@,
                old(self).now()@,
            );
        }
        match batch {
            Some(batch) => {
                self.time = batch.time;
                Some(batch)
            },
            None => None,
        }
    }

    /// What happens at a step towards a target time, or without any.
    pub open spec fn stepped(
        before: Self,
        target: Option<MonotonicTime>,
        command: Command,
        after: Self,
    ) -> bool {
        let bound = match target {
            Some(target) => target@,
            None => max_instant(),
        };
        match command {
            // Some actions are performed.
            Command::Step(batch) => {
                &&& Self::moved(before, bound, Some(batch), after)
                &&& after.awaiting() == Phase::Synchronizing { target }
            },
            // No actions are scheduled before or at the target time.
            Command::Synchronize(time) => {
                &&& next_time(before.scheduled(), bound) is None
                &&& target == Some(time)
                &&& after.same_bench(before)
                &&& after.scheduled() == purged(before.scheduled(), bound)
                &&& after.now() == time
                &&& after.awaiting() == Phase::Completing { reached: time }
            },
            // No actions are scheduled.
            Command::Done => {
                &&& target is None
                &&& Self::moved(before, bound, None, after)
                &&& after.awaiting() is Idle
            },
            Command::Run(_) => false,
        }
    }

    /// Advances simulation time towards a target time, if any.
    fn advance(&mut self, target: Option<MonotonicTime>) -> (command: Command)
        requires
            old(self).wf(),
            !old(self).terminated(),
            target is Some ==> old(self).now()@ <= target->Some_0@,
            target is Some ==> old(self).can_repeat(target->Some_0@),
            target is None ==> old(self).can_repeat(max_instant()),
        ensures
            final(self).wf(),
            Self::stepped(*old(self), target, command, *final(self)),
    {
        let bound = match target {
            Some(time) => time,
            None => MonotonicTime::max(),
        };
        match self.step_to_next_bounded(&bound) {
            Some(batch) => {
                self.phase = Phase::Synchronizing { target };
                Command::Step(batch)
            },
            None => match target {
                Some(time) => {
                    // Update the simulation time.
                    proof {
                        scheduler::lemma_purged_leaves_later_actions(
                            old(self).scheduled(),
                            time@,
                        );
                    }
                    self.time = time;
                    self.phase = Phase::Completing { reached: time };
                    Command::Synchronize(time)
                },
                None => {
                    self.phase = Phase::Idle;
                    Command::Done
                },
            },
        }
    }

    /// What happens upon a request to step a simulation.
    pub open spec fn step_result(
        before: Self,
        result: Result<Command, ExecutionError>,
        after: Self,
    ) -> bool {
        match result {
            Ok(command) => !before.terminated() && Self::stepped(before, None, command, after),
            Err(e) => before.terminated() && e is Terminated && after == before,
        }
    }

    /// What happens upon a request to step a simulation until some target time.
    pub open spec fn step_until_result(
        before: Self,
        target_time: MonotonicTime,
        result: Result<Command, ExecutionError>,
        after: Self,
    ) -> bool {
        match result {
            Ok(command) => {
                &&& !before.terminated()
                &&& before.now()@ <= target_time@
                &&& Self::stepped(before, Some(target_time), command, after)
            },
            Err(e) => {
                &&& after == before
                &&& if before.terminated() {
                    e is Terminated
                } else {
                    target_time@ < before.now()@ && e == ExecutionError::InvalidDeadline(target_time)
                }
            },
        }
    }

    /// Advances simulation time to that of the next scheduled event, processing
    /// that event as well as all other events scheduled for the same time.
    pub fn step(&mut self) -> (result: Result<Command, ExecutionError>)
        requires
            old(self).wf(),
            old(self).awaiting() is Idle,
            old(self).can_repeat(max_instant()),
        ensures
            final(self).wf(),
            Self::step_result(*old(self), result, *final(self)),
    {
        if self.is_terminated {
            return Err(ExecutionError::Terminated);
        }
        Ok(self.advance(None))
    }

    /// Iteratively advances the simulation time until the specified deadline,
    /// as if by calling [`Simulation::step()`] repeatedly.
    ///
    /// The request completes once all events scheduled up to the specified
    /// target time have completed. The simulation time upon completion is equal
    /// to the specified target time, whether or not an event was scheduled for
    /// that time.
    pub fn step_until(&mut self, target_time: MonotonicTime) -> (result: Result<
        Command,
        ExecutionError,
    >)
        requires
            old(self).wf(),
            old(self).awaiting() is Idle,
            old(self).can_repeat(target_time@),
        ensures
            final(self).wf(),
            Self::step_until_result(*old(self), target_time, result, *final(self)),
    {
        if self.is_terminated {
            return Err(ExecutionError::Terminated);
        }
        if target_time.lt(&self.time) {
            return Err(ExecutionError::InvalidDeadline(target_time));
        }
        Ok(self.advance(Some(target_time)))
    }

    /// Whether a lag of the clock is too large.
    pub open spec fn out_of_sync(self, status: SyncStatus) -> bool {
        match (status, self.tolerance()) {
            (SyncStatus::OutOfSync(lag), Some(tolerance)) => lag@ > tolerance@,
            _ => false,
        }
    }

    /// Whether two simulations differ by nothing but what they wait for and
    /// whether they are terminated.
    pub open spec fn same_schedule(self, other: Self) -> bool {
        &&& self.now() == other.now()
        &&& self.scheduled() == other.scheduled()
        &&& self.observed() == other.observed()
        &&& self.models() == other.models()
        &&& self.tolerance() == other.tolerance()
        &&& self.step_timeout() == other.step_timeout()
    }

    /// Returns the timeout of a step unless it is disabled.
    fn enabled_timeout(&self) -> (timeout: Option<Duration>)
        ensures
            timeout == self.step_limit(),
    {
        if self.timeout.is_zero() {
            None
        } else {
            Some(self.timeout)
        }
    }

    /// What happens once the clock was synchronized.
    pub open spec fn sync_result(
        before: Self,
        status: SyncStatus,
        result: Result<Command, ExecutionError>,
        after: Self,
    ) -> bool {
        &&& after.same_schedule(before)
        &&& match (before.awaiting(), result) {
            (Phase::Synchronizing { target }, Ok(command)) => {
                &&& !before.out_of_sync(status)
                &&& command == Command::Run(before.step_limit())
                &&& after.terminated() == before.terminated()
                &&& after.awaiting() == Phase::Running { target }
            },
            (Phase::Synchronizing { .. }, Err(e)) => {
                &&& before.out_of_sync(status)
                &&& e == ExecutionError::OutOfSync(status->OutOfSync_0)
                &&& after.terminated()
                &&& after.awaiting() is Idle
            },
            (_, result) => {
                &&& result == Ok::<Command, ExecutionError>(Command::Done)
                &&& after.terminated() == before.terminated()
                &&& after.awaiting() is Idle
            },
        }
    }

    /// Takes note of the state of the clock.
    pub fn synchronized(&mut self, status: SyncStatus) -> (result: Result<Command, ExecutionError>)
        requires
            old(self).wf(),
            old(self).awaiting() is Synchronizing || old(self).awaiting() is Completing,
        ensures
            final(self).wf(),
            Self::sync_result(*old(self), status, result, *final(self)),
    {
        match self.phase {
            Phase::Synchronizing { target } => {
                if let SyncStatus::OutOfSync(lag) = status {
                    if let Some(tolerance) = &self.clock_tolerance {
                        if lag.exceeds(tolerance) {
                            self.is_terminated = true;
                            self.phase = Phase::Idle;
                            return Err(ExecutionError::OutOfSync(lag));
                        }
                    }
                }
                self.phase = Phase::Running { target };
                Ok(Command::Run(self.enabled_timeout()))
            },
            _ => {
                self.phase = Phase::Idle;
                Ok(Command::Done)
            },
        }
    }

    /// The error that stands for a failure of the executor.
    pub open spec fn failure(
        self,
        error: ExecutorError,
        mailbox_sizes: Seq<usize>,
        panic_message: Option<String>,
        e: ExecutionError,
    ) -> bool {
        match error {
            ExecutorError::Deadlock => e matches ExecutionError::Deadlock(list) && list@
                == deadlocked(self.observed(), mailbox_sizes),
            ExecutorError::Timeout => e is Timeout,
            ExecutorError::Panic(model_id, payload) => e == ExecutionError::Panic {
                model: self.models()[model_id.index()->Some_0 as int],
                payload: PanicPayload { id: payload, message: panic_message },
            },
        }
    }

    /// Terminates the simulation upon a failure of the executor.
    fn fail(
        &mut self,
        error: ExecutorError,
        mailbox_sizes: &Vec<usize>,
        panic_message: Option<String>,
    ) -> (e: ExecutionError)
        requires
            mailbox_sizes@.len() == old(self).observed().len(),
            error matches ExecutorError::Panic(model_id, _) ==> model_id.index() is Some
                && model_id.index()->Some_0 < old(self).models().len(),
        ensures
            old(self).failure(error, mailbox_sizes@, panic_message, e),
            *final(self) == (Simulation { is_terminated: true, phase: Phase::Idle, ..*old(self) }),
    {
        self.is_terminated = true;
        self.phase = Phase::Idle;
        match error {
            ExecutorError::Deadlock => {
                let mut list: Vec<DeadlockInfo> = Vec::new();
                let mut i: usize = 0;
                while i < self.observers.len()
                    invariant
                        i <= self.observers@.len() == mailbox_sizes@.len(),
                        list@ == deadlocked(self.observers@.take(i as int), mailbox_sizes@),
                    decreases self.observers@.len() - i,
                {
                    proof {
                        let listed = self.observers@.take(i + 1);
                        assert(listed.drop_last() =~= self.observers@.take(i as int));
                    }
                    let mailbox_size: usize = mailbox_sizes[i];
                    if mailbox_size != 0 {
                        list.push(DeadlockInfo { model: self.observers[i].clone(), mailbox_size });
                    }
                    i = i + 1;
                }
                assert(self.observers@.take(i as int) =~= self.observers@);
                ExecutionError::Deadlock(list)
            },
            ExecutorError::Timeout => ExecutionError::Timeout,
            ExecutorError::Panic(model_id, payload) => {
                // The panic was emitted by a model.
                let model = match model_id.get() {
                    Some(id) => self.model_names[id].clone(),
                    None => String::new(),
                };
                ExecutionError::Panic {
                    model,
                    payload: PanicPayload { id: payload, message: panic_message },
                }
            },
        }
    }

    /// Whether the target time, if any, has been reached.
    pub open spec fn completes(self, target: Option<MonotonicTime>) -> bool {
        target is None || self.now() == target->Some_0
    }

    /// What happens once the spawned actions were executed.
    pub open spec fn execution_result(
        before: Self,
        outcome: Result<(), ExecutorError>,
        mailbox_sizes: Seq<usize>,
        panic_message: Option<String>,
        result: Result<Command, ExecutionError>,
        after: Self,
    ) -> bool {
        match (outcome, result) {
            (Ok(_), Ok(command)) => {
                let target = before.awaiting()->Running_target;
                if before.completes(target) {
                    &&& command is Done
                    &&& after.same_schedule(before)
                    &&& after.terminated() == before.terminated()
                    &&& after.awaiting() is Idle
                } else {
                    Self::stepped(before, target, command, after)
                }
            },
            (Err(error), Err(e)) => {
                &&& before.failure(error, mailbox_sizes, panic_message, e)
                &&& after.same_schedule(before)
                &&& after.terminated()
                &&& after.awaiting() is Idle
            },
            _ => false,
        }
    }

    /// Takes note of the outcome of the execution of the spawned actions.
    ///
    /// The sizes of all observed mailboxes are provided for the sake of error
    /// reporting, as well as the message of the panic if there was one and it
    /// has a message. A panic that was not emitted by a model may not be
    /// reported here.
    pub fn executed(
        &mut self,
        outcome: Result<(), ExecutorError>,
        mailbox_sizes: &Vec<usize>,
        panic_message: Option<String>,
    ) -> (result: Result<Command, ExecutionError>)
        requires
            old(self).wf(),
            old(self).awaiting() is Running,
            outcome is Ok ==> (old(self).awaiting() matches Phase::Running { target: Some(target) }
                ==> old(self).can_repeat(target@)),
            mailbox_sizes@.len() == old(self).observed().len(),
            outcome matches Err(ExecutorError::Panic(model_id, _)) ==> model_id.index() is Some
                && model_id.index()->Some_0 < old(self).models().len(),
        ensures
            final(self).wf(),
            Self::execution_result(
                *old(self),
                outcome,
                mailbox_sizes@,
                panic_message,
                result,
                *final(self),
            ),
    {
        if let Err(error) = outcome {
            return Err(self.fail(error, mailbox_sizes, panic_message));
        }
        match self.phase {
            Phase::Running { target: Some(target) } => {
                if self.time.same(&target) {
                    // The target time was reached exactly.
                    self.phase = Phase::Idle;
                    Ok(Command::Done)
                } else {
                    // The target time was not reached yet.
                    Ok(self.advance(Some(target)))
                }
            },
            _ => {
                self.phase = Phase::Idle;
                Ok(Command::Done)
            },
        }
    }

    /// Takes note of a panic that was not emitted by a model and that interrupts the
    /// execution of the spawned actions.
    pub fn terminate(&mut self)
        requires
            old(self).wf(),
        ensures
            final(self).wf(),
            final(self).same_schedule(*old(self)),
            final(self).terminated(),
            final(self).awaiting() is Idle,
    {
        self.is_terminated = true;
        self.phase = Phase::Idle;
    }

    /// What happens when the spawned actions are run at once.
    pub open spec fn processed(
        before: Self,
        result: Result<Command, ExecutionError>,
        after: Self,
    ) -> bool {
        match result {
            Ok(command) => {
                &&& !before.terminated()
                &&& command == Command::Run(before.step_limit())
                &&& after.same_bench(before)
                &&& after.now() == before.now()
                &&& after.scheduled() == before.scheduled()
                &&& after.awaiting() == Phase::Running { target: None }
            },
            Err(e) => before.terminated() && e is Terminated && after == before,
        }
    }

    /// Processes an action immediately.
    ///
    /// The action must have been spawned on the executor. Simulation time
    /// remains unchanged. The periodicity of the action, if any, is ignored.
    pub fn process(&mut self) -> (result: Result<Command, ExecutionError>)
        requires
            old(self).wf(),
            old(self).awaiting() is Idle,
        ensures
            final(self).wf(),
            Self::processed(*old(self), result, *final(self)),
    {
        if self.is_terminated {
            return Err(ExecutionError::Terminated);
        }
        self.phase = Phase::Running { target: None };
        Ok(Command::Run(self.enabled_timeout()))
    }

    /// Processes an event immediately.
    ///
    /// The future that sends the event must have been spawned on the executor.
    /// Simulation time remains unchanged.
    pub fn process_event(&mut self) -> (result: Result<Command, ExecutionError>)
        requires
            old(self).wf(),
            old(self).awaiting() is Idle,
        ensures
            final(self).wf(),
            Self::processed(*old(self), result, *final(self)),
    {
        self.process()
    }

    /// Processes a query immediately.
    ///
    /// The future that sends the query must have been spawned on the executor.
    /// Simulation time remains unchanged. Once the request has completed, the
    /// reply is to be handed to [`Simulation::query_reply`].
    pub fn process_query(&mut self) -> (result: Result<Command, ExecutionError>)
        requires
            old(self).wf(),
            old(self).awaiting() is Idle,
        ensures
            final(self).wf(),
            Self::processed(*old(self), result, *final(self)),
    {
        self.process()
    }

    /// Returns the reply to a query that has been processed.
    ///
    /// If the mailbox targeted by the query was not found in the simulation,
    /// there is no reply and an [`ExecutionError::BadQuery`] is returned.
    pub fn query_reply<R>(&self, reply: Option<R>) -> (result: Result<R, ExecutionError>)
        ensures
            match result {
                Ok(value) => reply == Some(value),
                Err(e) => reply is None && e is BadQuery,
            },
    {
        match reply {
            Some(value) => Ok(value),
            None => Err(ExecutionError::BadQuery),
        }
    }

    /// Schedules an action at a future time.
    ///
    /// An error is returned if the action has a null repetition period or if
    /// the specified time is not in the future of the current simulation time.
    pub fn schedule(&mut self, time: MonotonicTime, channel_id: usize, action: Action) -> (result:
        Result<(), SchedulingError>)
        requires
            old(self).wf(),
        ensures
            final(self).wf(),
            match result {
                Ok(_) => {
                    &&& action.period is Some ==> action.period->Some_0@ > 0
                    &&& old(self).now()@ < time@
                    &&& final(self).same_bench(*old(self))
                    &&& final(self).now() == old(self).now()
                    &&& final(self).awaiting() == old(self).awaiting()
                    &&& final(self).scheduled() == inserted(
                        old(self).scheduled(),
                        (ScheduledAction { time, channel_id, action, cancelled: false }),
                    )
                },
                Err(e) => {
                    &&& *final(self) == *old(self)
                    &&& if action.period is Some && action.period->Some_0@ == 0 {
                        e is NullRepetitionPeriod
                    } else {
                        e is InvalidScheduledTime && time@ <= old(self).now()@
                    }
                },
            },
    {
        if let Some(period) = action.period {
            proof {
                period.lemma_nonnegative();
            }
            if period.is_zero() {
                return Err(SchedulingError::NullRepetitionPeriod);
            }
        }
        if time.le(&self.time) {
            return Err(SchedulingError::InvalidScheduledTime);
        }
        self.scheduler_queue.insert(time, channel_id, action);
        proof {
            lemma_inserted_times(
                old(self).scheduled(),
                ScheduledAction { time, channel_id, action, cancelled: false },
                self.now()@,
            );
        }
        Ok(())
    }

    /// Cancels all actions with the specified key.
    pub fn cancel(&mut self, key: u64)
        requires
            old(self).wf(),
        ensures
            final(self).wf(),
            final(self).same_bench(*old(self)),
            final(self).now() == old(self).now(),
            final(self).awaiting() == old(self).awaiting(),
            final(self).scheduled() == cancelled(old(self).scheduled(), key),
    {
        self.scheduler_queue.cancel(key);
        proof {
            lemma_cancelled_times(old(self).scheduled(), key, self.now()@);
        }
    }

    /// Sets a timeout for each simulation step.
    ///
    /// The timeout corresponds to the maximum wall clock time allocated for the
    /// completion of a single simulation step before an
    /// [`ExecutionError::Timeout`] error is raised.
    ///
    /// A null duration disables the timeout, which is the default behavior.
    pub fn set_timeout(&mut self, timeout: Duration)
        requires
            old(self).wf(),
        ensures
            final(self).wf(),
            final(self).step_timeout() == timeout,
            final(self).tolerance() == old(self).tolerance(),
            final(self).observed() == old(self).observed(),
            final(self).models() == old(self).models(),
            final(self).terminated() == old(self).terminated(),
            final(self).now() == old(self).now(),
            final(self).scheduled() == old(self).scheduled(),
            final(self).awaiting() == old(self).awaiting(),
    {
        self.timeout = timeout;
    }

    /// Returns the current simulation time.
    pub fn time(&self) -> (time: MonotonicTime)
        ensures
            time == self.now(),
    {
        self.time
    }

    /// What the simulation waits for.
    pub fn phase(&self) -> (phase: Phase)
        ensures
            phase == self.awaiting(),
    {
        self.phase
    }

    /// Checks that the next periodic actions, if they are to be performed at all,
    /// can be scheduled again.
    pub fn is_repeatable(&self, bound: &MonotonicTime) -> (r: bool)
        requires
            self.wf(),
        ensures
            r == self.can_repeat(bound@),
    {
        self.is_terminated || self.scheduler_queue.is_repeatable(bound)
    }

    /// Errors that occur while a simulation runs are fatal: the simulation is
    /// terminated.
    pub proof fn law_fatal_errors_terminate(
        before: Self,
        status: SyncStatus,
        outcome: Result<(), ExecutorError>,
        mailbox_sizes: Seq<usize>,
        panic_message: Option<String>,
        result: Result<Command, ExecutionError>,
        after: Self,
    )
        requires
            before.wf(),
            Self::sync_result(before, status, result, after) || Self::execution_result(
                before,
                outcome,
                mailbox_sizes,
                panic_message,
                result,
                after,
            ),
            result is Err,
        ensures
            result->Err_0.is_fatal(),
            after.terminated(),
    {
    }

    /// Any attempt to run a terminated simulation fails and leaves it terminated.
    pub proof fn law_terminated_simulation_does_not_run(
        before: Self,
        target_time: MonotonicTime,
        result: Result<Command, ExecutionError>,
        after: Self,
    )
        requires
            before.terminated(),
            Self::step_result(before, result, after) || Self::step_until_result(
                before,
                target_time,
                result,
                after,
            ) || Self::processed(before, result, after),
        ensures
            result is Err,
            result->Err_0 is Terminated,
            after == before,
    {
    }

    /// A deadline in the past is refused, but the simulation can go on as if
    /// nothing had happened.
    pub proof fn law_invalid_deadline_is_not_fatal(
        before: Self,
        target_time: MonotonicTime,
        result: Result<Command, ExecutionError>,
        after: Self,
    )
        requires
            !before.terminated(),
            target_time@ < before.now()@,
            Self::step_until_result(before, target_time, result, after),
        ensures
            result is Err,
            result->Err_0 == ExecutionError::InvalidDeadline(target_time),
            !result->Err_0.is_fatal(),
            after == before,
    {
    }

    /// When a simulation is stepped until some target time, either there are
    /// actions to be performed at the new simulation time, or the target time
    /// has been reached and all remaining actions are scheduled later.
    pub proof fn law_target_time_is_reached(
        before: Self,
        target: MonotonicTime,
        command: Command,
        after: Self,
    )
        requires
            before.wf(),
            after.wf(),
            before.now()@ <= target@,
            Self::stepped(before, Some(target), command, after),
        ensures
            match command {
                Command::Step(batch) => after.now() == batch.time && after.now()@ <= target@,
                Command::Synchronize(time) => time == target && after.now() == target && all_after(
                    after.scheduled(),
                    target@,
                ),
                _ => false,
            },
    {
        Self::law_time_never_decreases(before, Some(target), command, after);
    }

    /// What a step does, whether it is the first or a further one of a request.
    ///
    /// Simulation time moves to that of the earliest scheduled actions that were not
    /// cancelled, unless they are scheduled after the target time. All of them are
    /// performed, and nothing else: those with the same origin in one sequence and
    /// in the order in which they were scheduled. Later actions are left as they are,
    /// in order, but for periodic actions that were performed: each comes again one
    /// period later, with the same origin, behind all other actions with the same
    /// time and origin.
    ///
    /// If there is no such action, simulation time moves to the target time if there
    /// is one, and all actions are left as they are.
    ///
    /// What remains to be performed is stated of an arbitrary time and origin.
    pub proof fn law_step(
        before: Self,
        target: Option<MonotonicTime>,
        mailbox_sizes: Seq<usize>,
        command: Command,
        after: Self,
        time: int,
        channel_id: usize,
    )
        requires
            before.wf(),
            target is Some ==> target->Some_0.wf(),
            forall|i: int|
                0 <= i < before.scheduled().len() ==> (#[trigger] before.scheduled()[i]).time.wf(),
            match target {
                None => Self::step_result(before, Ok(command), after),
                Some(target_time) => Self::step_until_result(
                    before,
                    target_time,
                    Ok(command),
                    after,
                ) || (before.awaiting() == (Phase::Running { target }) && before.now()@
                    < target_time@ && Self::execution_result(
                    before,
                    Ok(()),
                    mailbox_sizes,
                    None,
                    Ok(command),
                    after,
                )),
            },
        ensures
            after.tolerance() == before.tolerance(),
            after.step_timeout() == before.step_timeout(),
            after.observed() == before.observed(),
            after.models() == before.models(),
            after.terminated() == before.terminated(),
            match command {
                Command::Step(batch) => {
                    let s = before.scheduled();
                    let now = batch.time@;
                    &&& after.now() == batch.time
                    &&& after.awaiting() == Phase::Synchronizing { target }
                    &&& before.now()@ < now
                    &&& target is Some ==> now <= target->Some_0@
                    &&& forall|i: int|
                        0 <= i < s.len() && !(#[trigger] s[i]).cancelled ==> now <= s[i].time@
                    &&& exists|i: int|
                        0 <= i < s.len() && !(#[trigger] s[i]).cancelled && s[i].time@ == now
                    // All actions are performed, and nothing else.
                    &&& batch.groups().flatten() == s.filter_map(
                        |e: ScheduledAction|
                            if e.time@ == now && !e.cancelled {
                                Some(e.action)
                            } else {
                                None
                            },
                    )
                    &&& batch.groups().len() > 0
                    &&& forall|g: int|
                        0 <= g < batch.groups().len() ==> (#[trigger] batch.groups()[g]).len() > 0
                    // Those with the same origin are performed in turn.
                    &&& {
                        let own = s.filter_map(
                            |e: ScheduledAction|
                                if e.time@ == now && !e.cancelled && e.channel_id == channel_id {
                                    Some(e.action)
                                } else {
                                    None
                                },
                        );
                        own.len() > 0 ==> batch.groups().contains(own)
                    }
                    // The same actions remain, along with those that recur.
                    &&& time > now && (forall|i: int|
                        0 <= i < s.len() && (#[trigger] s[i]).time@ == now && !s[i].cancelled
                            && s[i].action.period is Some ==> now + s[i].action.period->Some_0@
                            <= max_instant()) ==> after.scheduled().filter_map(
                        |e: ScheduledAction|
                            if e.time@ == time && e.channel_id == channel_id && !e.cancelled {
                                Some(e.action)
                            } else {
                                None
                            },
                    ) == s.filter_map(
                        |e: ScheduledAction|
                            if e.time@ == time && e.channel_id == channel_id && !e.cancelled {
                                Some(e.action)
                            } else {
                                None
                            },
                    ) + s.filter_map(
                        |e: ScheduledAction|
                            if e.time@ == now && !e.cancelled && e.channel_id == channel_id
                                && e.action.period is Some && now + e.action.period->Some_0@
                                == time {
                                Some(e.action)
                            } else {
                                None
                            },
                    )
                },
                Command::Synchronize(reached) => {
                    let s = before.scheduled();
                    &&& target == Some(reached)
                    &&& after.now() == reached
                    &&& after.awaiting() == Phase::Completing { reached }
                    &&& forall|i: int|
                        0 <= i < s.len() && !(#[trigger] s[i]).cancelled ==> reached@ < s[i].time@
                    &&& after.scheduled().filter_map(
                        |e: ScheduledAction|
                            if e.time@ == time && e.channel_id == channel_id && !e.cancelled {
                                Some(e.action)
                            } else {
                                None
                            },
                    ) == s.filter_map(
                        |e: ScheduledAction|
                            if e.time@ == time && e.channel_id == channel_id && !e.cancelled {
                                Some(e.action)
                            } else {
                                None
                            },
                    )
                },
                Command::Done => {
                    let s = before.scheduled();
                    &&& target is None
                    &&& after.now() == before.now()
                    &&& after.awaiting() is Idle
                    &&& forall|i: int| 0 <= i < s.len() ==> (#[trigger] s[i]).cancelled
                    &&& after.scheduled().len() == 0
                },
                Command::Run(_) => false,
            },
    {
        let s = before.scheduled();
        let bound = match target {
            Some(target) => target@,
            None => max_instant(),
        };
        law_next_time(s, bound);
        lemma_batch_leaves_later_actions(s, bound, before.now()@);
        match command {
            Command::Step(batch) => {
                let now = batch.time@;
                lemma_performed(s, now, channel_id);
                let i = choose|i: int|
                    0 <= i < s.len() && (#[trigger] s[i]).time@ == now && !s[i].cancelled;
                s.lemma_filter_contains(|e: ScheduledAction| e.is_due(now), i);
                law_sequences_are_complete(due(s, now));
                if time > now && (forall|i: int|
                    0 <= i < s.len() && (#[trigger] s[i]).time@ == now && !s[i].cancelled
                        && s[i].action.period is Some ==> now + s[i].action.period->Some_0@
                        <= max_instant()) {
                    lemma_live_after_batch(s, bound, now, time, channel_id);
                }
            },
            Command::Synchronize(_) => {
                lemma_live_left(s, bound, time, channel_id);
            },
            Command::Done => {
                assert forall|i: int| 0 <= i < s.len() implies (#[trigger] s[i]).cancelled by {
                    s[i].time.lemma_latest();
                }
                lemma_purged(s, bound);
                let rest = purged(s, bound);
                if rest.len() > 0 {
                    assert(rest[0] == s[s.len() - rest.len()]);
                    rest[0].time.lemma_latest();
                }
            },
            Command::Run(_) => {},
        }
    }

    /// A periodic action that is performed is scheduled again one period later: the
    /// very same action with the same period and the same key, with the same origin.
    ///
    /// Its place among all scheduled actions is returned.
    pub proof fn law_periodic_actions_recur(
        before: Self,
        target: Option<MonotonicTime>,
        batch: Batch,
        after: Self,
        i: int,
    ) -> (j: int)
        requires
            before.wf(),
            Self::stepped(before, target, Command::Step(batch), after),
            0 <= i < before.scheduled().len(),
            before.scheduled()[i].time@ == batch.time@,
            !before.scheduled()[i].cancelled,
            before.scheduled()[i].action.period is Some,
            batch.time@ + before.scheduled()[i].action.period->Some_0@ <= max_instant(),
        ensures
            0 <= j < after.scheduled().len(),
            after.scheduled()[j].time@ == batch.time@
                + before.scheduled()[i].action.period->Some_0@,
            after.scheduled()[j].channel_id == before.scheduled()[i].channel_id,
            after.scheduled()[j].action.id == before.scheduled()[i].action.id,
            after.scheduled()[j].action.period == before.scheduled()[i].action.period,
            after.scheduled()[j].action.key == before.scheduled()[i].action.key,
            !after.scheduled()[j].cancelled,
    {
        let s = before.scheduled();
        let now = batch.time@;
        let bound = match target {
            Some(target) => target@,
            None => max_instant(),
        };
        let performed = due(s, now);
        s.lemma_filter_contains(|e: ScheduledAction| e.is_due(now), i);
        let k = choose|k: int| 0 <= k < performed.len() && performed[k] == s[i];
        law_periodic_actions_are_repeated(later(s, now), performed, k);
        let next = s[i].next()->Some_0;
        s[i].action.period->Some_0.lemma_nonnegative();
        s[i].time.lemma_earliest();
        MonotonicTime::lemma_at(now + s[i].action.period->Some_0@);
        let all = rescheduled(later(s, now), performed);
        lemma_kept_by_purge(all, bound, next);
        let j = choose|j: int|
            0 <= j < after.scheduled().len() && after.scheduled()[j] == next;
        j
    }

    /// A request completes as soon as the target time has been reached, or once the
    /// spawned actions were executed if there is no target time.
    pub proof fn law_completion(
        before: Self,
        target: Option<MonotonicTime>,
        mailbox_sizes: Seq<usize>,
        command: Command,
        after: Self,
    )
        requires
            before.wf(),
            before.awaiting() == (Phase::Running { target }),
            target matches Some(time) ==> time.wf() && before.now().wf(),
            Self::execution_result(before, Ok(()), mailbox_sizes, None, Ok(command), after),
        ensures
            (target matches Some(time) ==> before.now()@ == time@) ==> ({
                &&& command is Done
                &&& after.now() == before.now()
                &&& after.scheduled() == before.scheduled()
                &&& after.terminated() == before.terminated()
                &&& after.awaiting() is Idle
            }),
            target matches Some(time) ==> (before.now()@ < time@ ==> (command is Step
                || command is Synchronize)),
    {
        if let Some(time) = target {
            if before.now()@ == time@ {
                before.now().lemma_view_is_injective(time);
            }
        }
    }

    /// A lag of the clock is fatal if and only if it is longer than the tolerance, if
    /// there is one. Otherwise the actions are run within the allocated time, if it
    /// is limited.
    pub proof fn law_synchronization(
        before: Self,
        target: Option<MonotonicTime>,
        status: SyncStatus,
        result: Result<Command, ExecutionError>,
        after: Self,
    )
        requires
            before.awaiting() == (Phase::Synchronizing { target }),
            Self::sync_result(before, status, result, after),
        ensures
            result is Err <==> (status matches SyncStatus::OutOfSync(lag) && before.tolerance()
                matches Some(tolerance) && lag@ > tolerance@),
            after.now() == before.now(),
            after.scheduled() == before.scheduled(),
            match result {
                Err(e) => {
                    &&& e == ExecutionError::OutOfSync(status->OutOfSync_0)
                    &&& after.terminated()
                    &&& after.awaiting() is Idle
                },
                Ok(Command::Run(limit)) => {
                    &&& limit == if before.step_timeout()@ == 0 {
                        None
                    } else {
                        Some(before.step_timeout())
                    }
                    &&& after.terminated() == before.terminated()
                    &&& after.awaiting() == Phase::Running { target }
                },
                Ok(_) => false,
            },
    {
    }

    /// Once the clock is synchronized with the target time, the request has completed,
    /// whatever the lag of the clock is.
    pub proof fn law_completed_synchronization(
        before: Self,
        reached: MonotonicTime,
        status: SyncStatus,
        result: Result<Command, ExecutionError>,
        after: Self,
    )
        requires
            before.awaiting() == (Phase::Completing { reached }),
            Self::sync_result(before, status, result, after),
        ensures
            result matches Ok(command) && command is Done,
            after.now() == before.now(),
            after.scheduled() == before.scheduled(),
            after.terminated() == before.terminated(),
            after.awaiting() is Idle,
    {
    }

    /// Any lag that is as long as one that is refused is refused too, and any lag up
    /// to the tolerance is accepted.
    pub proof fn law_refusal_is_monotone(
        before: Self,
        target: Option<MonotonicTime>,
        lag: Duration,
        result: Result<Command, ExecutionError>,
        after: Self,
        other_lag: Duration,
        other_result: Result<Command, ExecutionError>,
        other_after: Self,
    )
        requires
            before.awaiting() == (Phase::Synchronizing { target }),
            Self::sync_result(before, SyncStatus::OutOfSync(lag), result, after),
            Self::sync_result(before, SyncStatus::OutOfSync(other_lag), other_result, other_after),
        ensures
            result is Err && lag@ <= other_lag@ ==> other_result is Err,
            before.tolerance() matches Some(tolerance) ==> (lag@ <= tolerance@ <==> result is Ok),
            before.tolerance() is None ==> result is Ok,
    {
    }

    /// The error that is reported for each failure of the executor.
    pub proof fn law_failures(
        before: Self,
        error: ExecutorError,
        mailbox_sizes: Seq<usize>,
        panic_message: Option<String>,
        result: Result<Command, ExecutionError>,
        after: Self,
    )
        requires
            mailbox_sizes.len() == before.observed().len(),
            Self::execution_result(
                before,
                Err(error),
                mailbox_sizes,
                panic_message,
                result,
                after,
            ),
        ensures
            result is Err,
            match (error, result->Err_0) {
                (ExecutorError::Timeout, ExecutionError::Timeout) => true,
                (
                    ExecutorError::Panic(model_id, payload_id),
                    ExecutionError::Panic { model, payload },
                ) => {
                    &&& model == before.models()[model_id.index()->Some_0 as int]
                    &&& payload.id == payload_id
                    &&& payload.message == panic_message
                },
                (ExecutorError::Deadlock, ExecutionError::Deadlock(list)) => list@ == Seq::new(
                    mailbox_sizes.len(),
                    |i: int| i,
                ).filter_map(
                    |i: int|
                        if mailbox_sizes[i] > 0 {
                            Some(
                                DeadlockInfo {
                                    model: before.observed()[i],
                                    mailbox_size: mailbox_sizes[i],
                                },
                            )
                        } else {
                            None
                        },
                ),
                _ => false,
            },
            after.now() == before.now(),
            after.scheduled() == before.scheduled(),
            after.terminated(),
            after.awaiting() is Idle,
    {
        lemma_deadlocked(before.observed(), mailbox_sizes);
    }

    /// Spawned actions are run at once unless the simulation is terminated, without
    /// any influence on simulation time or on scheduled actions.
    pub proof fn law_processing(
        before: Self,
        result: Result<Command, ExecutionError>,
        after: Self,
    )
        requires
            Self::processed(before, result, after),
        ensures
            result is Ok <==> !before.terminated(),
            result matches Err(e) ==> e is Terminated && after == before,
            result matches Ok(command) ==> {
                &&& command matches Command::Run(limit)
                &&& limit == if before.step_timeout()@ == 0 {
                    None
                } else {
                    Some(before.step_timeout())
                }
                &&& after.awaiting() == Phase::Running { target: None }
                &&& !after.terminated()
            },
            after.now() == before.now(),
            after.scheduled() == before.scheduled(),
    {
    }

    /// What a request never affects: the settings of the simulation and the names of its
    /// models.
    pub proof fn law_settings(
        before: Self,
        target_time: MonotonicTime,
        status: SyncStatus,
        outcome: Result<(), ExecutorError>,
        mailbox_sizes: Seq<usize>,
        panic_message: Option<String>,
        result: Result<Command, ExecutionError>,
        after: Self,
    )
        requires
            Self::step_result(before, result, after) || Self::step_until_result(
                before,
                target_time,
                result,
                after,
            ) || Self::sync_result(before, status, result, after) || Self::execution_result(
                before,
                outcome,
                mailbox_sizes,
                panic_message,
                result,
                after,
            ) || Self::processed(before, result, after),
        ensures
            after.tolerance() == before.tolerance(),
            after.step_timeout() == before.step_timeout(),
            after.observed() == before.observed(),
            after.models() == before.models(),
    {
    }

    /// Whether two simulations have the same settings and are both terminated or not, and
    /// whether they have the same settings and the same scheduled actions at the same
    /// time.
    pub proof fn law_same_simulations(self, other: Self)
        ensures
            self.same_bench(other) <==> self.tolerance() == other.tolerance()
                && self.step_timeout() == other.step_timeout() && self.observed()
                == other.observed() && self.models() == other.models() && self.terminated()
                == other.terminated(),
            self.same_schedule(other) <==> self.tolerance() == other.tolerance()
                && self.step_timeout() == other.step_timeout() && self.observed()
                == other.observed() && self.models() == other.models() && self.now() == other.now()
                && self.scheduled() == other.scheduled(),
    {
    }

    /// The next actions can be repeated if and only if the simulation is terminated
    /// or none of the earliest actions up to the bound recurs after the latest
    /// instant.
    pub proof fn law_repetition(self, bound: int)
        requires
            self.wf(),
        ensures
            self.can_repeat(bound) <==> self.terminated() || forall|i: int|
                0 <= i < self.scheduled().len() && !(#[trigger] self.scheduled()[i]).cancelled
                    && self.scheduled()[i].time@ <= bound && (forall|j: int|
                    0 <= j < self.scheduled().len() && !(#[trigger] self.scheduled()[j]).cancelled
                        ==> self.scheduled()[i].time@ <= self.scheduled()[j].time@)
                    && self.scheduled()[i].action.period is Some ==> self.scheduled()[i].time@
                    + self.scheduled()[i].action.period->Some_0@ <= i64::MAX * 1_000_000_000
                    + 999_999_999,
    {
        let s = self.scheduled();
        law_next_time(s, bound);
        if next_time(s, bound) is Some {
            let time = next_time(s, bound)->Some_0;
            let first = choose|i: int|
                0 <= i < s.len() && (#[trigger] s[i]).time@ == time && !s[i].cancelled;
            assert(!s[first].cancelled);
            if forall|i: int|
                0 <= i < s.len() && !(#[trigger] s[i]).cancelled && s[i].time@ <= bound && (forall|
                    j: int,
                |
                    0 <= j < s.len() && !(#[trigger] s[j]).cancelled ==> s[i].time@ <= s[j].time@)
                    && s[i].action.period is Some ==> s[i].time@ + s[i].action.period->Some_0@
                    <= i64::MAX * 1_000_000_000 + 999_999_999 {
                assert forall|i: int| 0 <= i < s.len() && (#[trigger] s[i]).is_due(
                    time,
                ) implies s[i].can_repeat() by {
                    assert(forall|j: int|
                        0 <= j < s.len() && !(#[trigger] s[j]).cancelled ==> s[i].time@
                            <= s[j].time@);
                }
            }
        }
    }

    /// A simulation is stepped until some target time as if by repeated steps: as
    /// long as the target time is not reached, the same actions are performed at
    /// the same time, and the same actions remain but for cancelled ones.
    pub proof fn law_stepped_until_as_if_repeatedly(
        before: Self,
        target: MonotonicTime,
        command: Command,
        after: Self,
        single_command: Command,
        single_after: Self,
    )
        requires
            before.wf(),
            target.wf(),
            Self::stepped(before, Some(target), command, after),
            Self::stepped(before, None, single_command, single_after),
        ensures
            match (command, single_command) {
                (Command::Step(batch), Command::Step(single_batch)) => {
                    &&& batch.time@ == single_batch.time@
                    &&& batch.groups() == single_batch.groups()
                    &&& purged(after.scheduled(), max_instant()) == single_after.scheduled()
                },
                (Command::Synchronize(_), Command::Step(single_batch)) => single_batch.time@
                    > target@,
                (Command::Synchronize(_), Command::Done) => true,
                _ => false,
            },
    {
        target.lemma_latest();
        lemma_wider_bound(before.scheduled(), target@, max_instant());
        if let Command::Step(batch) = command {
            let performed = due(before.scheduled(), batch.time@);
            let remaining = rescheduled(later(before.scheduled(), batch.time@), performed);
            lemma_purged_twice(remaining, target@, max_instant());
        }
    }

    /// Simulation time never goes back.
    pub proof fn law_time_never_decreases(
        before: Self,
        target: Option<MonotonicTime>,
        command: Command,
        after: Self,
    )
        requires
            before.wf(),
            target is Some ==> before.now()@ <= target->Some_0@,
            Self::stepped(before, target, command, after),
        ensures
            before.now()@ <= after.now()@,
            command is Step ==> before.now()@ < after.now()@,
            target is Some ==> after.now()@ <= target->Some_0@,
    {
        let bound = match target {
            Some(target) => target@,
            None => max_instant(),
        };
        lemma_batch_leaves_later_actions(before.scheduled(), bound, before.now()@);
    }
}

proof fn lemma_deadlocked(observers: Seq<String>, mailbox_sizes: Seq<usize>)
    requires
        mailbox_sizes.len() >= observers.len(),
    ensures
        deadlocked(observers, mailbox_sizes) == Seq::new(observers.len(), |i: int| i).filter_map(
            |i: int|
                if mailbox_sizes[i] > 0 {
                    Some(DeadlockInfo { model: observers[i], mailbox_size: mailbox_sizes[i] })
                } else {
                    None
                },
        ),
    decreases observers.len(),
{
    let indices = Seq::new(observers.len(), |i: int| i);
    let f = |i: int|
        if mailbox_sizes[i] > 0 {
            Some(DeadlockInfo { model: observers[i], mailbox_size: mailbox_sizes[i] })
        } else {
            None
        };
    if observers.len() > 0 {
        let others = observers.drop_last();
        let g = |i: int|
            if mailbox_sizes[i] > 0 {
                Some(DeadlockInfo { model: others[i], mailbox_size: mailbox_sizes[i] })
            } else {
                None
            };
        lemma_deadlocked(others, mailbox_sizes);
        let rest = Seq::new(others.len(), |i: int| i);
        assert(indices.drop_last() =~= rest);
        lemma_same_outcome(rest, f, g);
        assert(deadlocked(observers, mailbox_sizes) =~= indices.filter_map(f));
    } else {
        assert(deadlocked(observers, mailbox_sizes) =~= indices.filter_map(f));
    }
}

proof fn lemma_same_outcome<B>(
    s: Seq<int>,
    f: spec_fn(int) -> Option<B>,
    g: spec_fn(int) -> Option<B>,
)
    requires
        forall|i: int| 0 <= i < s.len() ==> f(#[trigger] s[i]) == g(s[i]),
    ensures
        s.filter_map(f) == s.filter_map(g),
    decreases s.len(),
{
    if s.len() > 0 {
        let rest = s.drop_last();
        assert forall|i: int| 0 <= i < rest.len() implies f(#[trigger] rest[i]) == g(rest[i]) by {
            assert(rest[i] == s[i]);
        }
        lemma_same_outcome(rest, f, g);
        assert(f(s[s.len() - 1]) == g(s[s.len() - 1]));
    }
}

/// All models with messages in their mailboxes are reported as deadlocked, along
/// with the number of their messages, and no other.
pub proof fn law_deadlock_report(observers: Seq<String>, mailbox_sizes: Seq<usize>)
    requires
        mailbox_sizes.len() >= observers.len(),
    ensures
        forall|i: int|
            0 <= i < observers.len() && mailbox_sizes[i] != 0 ==> deadlocked(
                observers,
                mailbox_sizes,
            ).contains(
                (DeadlockInfo { model: #[trigger] observers[i], mailbox_size: mailbox_sizes[i] }),
            ),
        forall|k: int|
            0 <= k < deadlocked(observers, mailbox_sizes).len() ==> exists|i: int|
                0 <= i < observers.len() && mailbox_sizes[i] != 0 && #[trigger] deadlocked(
                    observers,
                    mailbox_sizes,
                )[k] == (DeadlockInfo {
                    model: #[trigger] observers[i],
                    mailbox_size: mailbox_sizes[i],
                }),
    decreases observers.len(),
{
    if observers.len() > 0 {
        let n = observers.len() - 1;
        let others = observers.drop_last();
        let rest = deadlocked(others, mailbox_sizes);
        let all = deadlocked(observers, mailbox_sizes);
        law_deadlock_report(others, mailbox_sizes);
        assert forall|i: int| 0 <= i < observers.len() && mailbox_sizes[i] != 0 implies
            all.contains(
            (DeadlockInfo { model: #[trigger] observers[i], mailbox_size: mailbox_sizes[i] }),
        ) by {
            let info = DeadlockInfo { model: observers[i], mailbox_size: mailbox_sizes[i] };
            if i < n {
                assert(others[i] == observers[i]);
                let k = choose|k: int| 0 <= k < rest.len() && rest[k] == info;
                assert(all[k] == info);
            } else {
                assert(all[all.len() - 1] == info);
            }
        }
        assert forall|k: int| 0 <= k < all.len() implies exists|i: int|
            0 <= i < observers.len() && mailbox_sizes[i] != 0 && #[trigger] all[k]
                == (DeadlockInfo {
                model: #[trigger] observers[i],
                mailbox_size: mailbox_sizes[i],
            }) by {
            if k < rest.len() {
                assert(rest[k] == all[k]);
                let i = choose|i: int|
                    0 <= i < others.len() && mailbox_sizes[i] != 0 && rest[k] == (DeadlockInfo {
                        model: #[trigger] others[i],
                        mailbox_size: mailbox_sizes[i],
                    });
                assert(observers[i] == others[i]);
            } else {
                assert(observers[n] == observers.last());
            }
        }
    }
}

/// Adds a model to the simulation bench and returns its identifier.
pub fn add_model(model_names: &mut Vec<String>, name: String) -> (id: ModelId)
    requires
        old(model_names)@.len() < usize::MAX,
    ensures
        id.index() == Some(old(model_names)@.len() as usize),
        final(model_names)@ == old(model_names)@.push(name),
{
    let id = ModelId::new(model_names.len());
    model_names.push(name);
    id
}

} // verus!
