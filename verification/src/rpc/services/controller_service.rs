//! Simulation control.

use vstd::prelude::*;

use super::{
    check_deadline, check_period, check_reachable, check_target, codec_error,
    codec_text, deadline_instant, deadline_refusal, execution_error_code, is_period, is_reachable,
    is_strictly_positive, map_execution_error, map_scheduling_error, not_started, report_time,
    scheduling_error_code, simulation_not_started_error, target_refusal, time_result, to_error,
    to_error_with_name, with_name,
};
use crate::rpc::key_registry::{KeyRegistry, KeyRegistryId, RegisteredKey};
use crate::rpc::message::{
    CancelEventRequest, CodecError, Deadline, Error, ErrorCode, EventKey, ProcessEventRequest,
    ProcessQueryRequest, ScheduleEventRequest, StepRequest, StepUntilRequest, TimeRequest,
    Timestamp,
};
use crate::rpc::registry::{law_each_item_is_found, law_items_are_found_by_name, Registry};
use crate::simulation::error::ExecutionError;
use crate::simulation::scheduler::{
    cancelled, due, inserted, law_cancelled_actions_are_not_performed, law_insertion_is_stable,
    law_cancellation_withdraws_actions, law_insertion_adds_one_action,
    law_other_actions_are_kept, Action, ScheduledAction, SchedulingError,
};
use crate::simulation::{Command, Simulation};
use crate::time::{max_instant, Duration, MonotonicTime};

verus! {

/// The origin of events that are scheduled from outside the simulation.
pub const GLOBAL_ORIGIN: usize = 0;

/// Whether a simulation can be stepped until the requested time: the deadline
/// and the next occurrences of periodic events may not lie beyond the latest
/// instant.
pub open spec fn can_step_until(simulation: Simulation, request: StepUntilRequest) -> bool {
    &&& is_reachable(request.deadline, simulation.now()@)
    &&& target_refusal(request.deadline) is None ==> simulation.can_repeat(
        deadline_instant(request.deadline->Some_0, simulation.now()@),
    )
}

/// Checks if a simulation can be stepped until the requested time.
pub fn check_step_until(simulation: &Simulation, request: &StepUntilRequest) -> (r: bool)
    requires
        simulation.wf(),
    ensures
        r == can_step_until(*simulation, *request),
{
    let now = simulation.time();
    if !check_reachable(&request.deadline, &now) {
        return false;
    }
    match check_target(request.deadline, &now) {
        Ok(target) => simulation.is_repeatable(&target),
        Err(_) => true,
    }
}

/// Whether an event can be scheduled as requested: the deadline may not lie
/// beyond the latest instant and there must be room for the key.
pub open spec fn can_schedule(
    simulation: Simulation,
    key_registry: KeyRegistry,
    request: ScheduleEventRequest,
) -> bool {
    &&& (request.period is Some ==> is_strictly_positive(request.period->Some_0)) ==> is_reachable(
        request.deadline,
        simulation.now()@,
    )
    &&& request.with_key ==> key_registry.has_room()
}

/// Checks if an event can be scheduled as requested.
pub fn check_schedule(
    simulation: &Simulation,
    key_registry: &KeyRegistry,
    request: &ScheduleEventRequest,
) -> (r: bool)
    requires
        simulation.wf(),
    ensures
        r == can_schedule(*simulation, *key_registry, *request),
{
    if request.with_key && !key_registry.can_insert() {
        return false;
    }
    match check_period(request.period) {
        Ok(_) => check_reachable(&request.deadline, &simulation.time()),
        Err(_) => true,
    }
}

/// Whether a number can be the key of a new event: neither a scheduled action nor
/// a registered key has it.
pub open spec fn is_unused(key: u64, simulation: Simulation, key_registry: KeyRegistry) -> bool {
    &&& forall|i: int|
        0 <= i < simulation.scheduled().len() ==> (
        #[trigger] simulation.scheduled()[i]).action.key != Some(key)
    &&& forall|id: KeyRegistryId| #[trigger]
        key_registry@.dom().contains(id) ==> key_registry@[id].action_key != key
}

/// Whether the number that designates a decoded event is a new one each time that
/// an event is requested with a key.
pub open spec fn draws_new_keys<E, F>(
    simulation: Simulation,
    key_registry: KeyRegistry,
    request: ScheduleEventRequest,
    decode: F,
) -> bool where F: FnOnce(&E, &Vec<u8>) -> Result<u64, CodecError> {
    request.with_key ==> forall|source: &E, id: u64| #[trigger]
        decode.ensures((source, &request.event), Ok(id)) ==> is_unused(
            id,
            simulation,
            key_registry,
        )
}

/// The key registry without the keys that expired before the given time.
pub open spec fn unexpired(keys: Map<KeyRegistryId, RegisteredKey>, now: int) -> Map<
    KeyRegistryId,
    RegisteredKey,
> {
    keys.restrict(
        Set::new(|id: KeyRegistryId| keys.dom().contains(id) && keys[id].expiration@ >= now),
    )
}

/// Removes expired keys.
fn remove_expired(key_registry: &mut KeyRegistry, now: MonotonicTime)
    requires
        old(key_registry).wf(),
    ensures
        final(key_registry).wf(),
        final(key_registry).epoch() == old(key_registry).epoch(),
        old(key_registry).has_room() ==> final(key_registry).has_room(),
        final(key_registry)@ == unexpired(old(key_registry)@, now@),
{
    key_registry.remove_expired_keys(now);
    assert(key_registry@ =~= unexpired(old(key_registry)@, now@));
}

/// What happens when an event that was decoded is scheduled.
pub open spec fn event_scheduled(
    before: Simulation,
    keys_before: KeyRegistry,
    time: MonotonicTime,
    action: Action,
    result: Result<Option<EventKey>, Error>,
    after: Simulation,
    keys_after: KeyRegistry,
) -> bool {
    match result {
        Ok(key) => {
            &&& before.now()@ < time@
            &&& after.same_bench(before)
            &&& after.now() == before.now()
            &&& after.awaiting() == before.awaiting()
            &&& after.scheduled() == inserted(
                before.scheduled(),
                ScheduledAction { time, channel_id: GLOBAL_ORIGIN, action, cancelled: false },
            )
            &&& match (action.key, key) {
                (Some(action_key), Some(key)) => {
                    // Periodic events do not expire.
                    let id = KeyRegistryId { index: key.subkey1 as usize, epoch: key.subkey2 };
                    let kept = unexpired(keys_before@, before.now()@);
                    &&& key.subkey1 <= usize::MAX
                    &&& !kept.dom().contains(id)
                    &&& keys_after@.dom() == kept.dom().insert(id)
                    &&& keys_after@.remove(id) == kept.remove(id)
                    &&& keys_after@[id].epoch == id.epoch
                    &&& keys_after@[id].action_key == action_key
                    &&& keys_after@[id].expiration@ == if action.period is Some {
                        max_instant()
                    } else {
                        time@
                    }
                },
                (None, None) => keys_after == keys_before,
                _ => false,
            }
        },
        Err(e) => {
            &&& time@ <= before.now()@
            &&& e.says(
                scheduling_error_code(SchedulingError::InvalidScheduledTime),
                SchedulingError::InvalidScheduledTime.text(),
            )
            &&& after == before
            &&& keys_after == keys_before
        },
    }
}

/// Schedules an event that was decoded.
pub fn schedule_action(
    simulation: &mut Simulation,
    key_registry: &mut KeyRegistry,
    time: MonotonicTime,
    action: Action,
) -> (result: Result<Option<EventKey>, Error>)
    requires
        old(simulation).wf(),
        old(key_registry).wf(),
        action.key is Some ==> old(key_registry).has_room(),
        action.period is Some ==> action.period->Some_0@ > 0,
    ensures
        final(simulation).wf(),
        final(key_registry).wf(),
        event_scheduled(
            *old(simulation),
            *old(key_registry),
            time,
            action,
            result,
            *final(simulation),
            *final(key_registry),
        ),
{
    if let Err(e) = simulation.schedule(time, GLOBAL_ORIGIN, action) {
        return Err(map_scheduling_error(e));
    }
    match action.key {
        None => Ok(None),
        Some(action_key) => {
            // Free stale keys from the registry.
            remove_expired(key_registry, simulation.time());
            let ghost kept = key_registry@;
            let key_id = if action.period.is_some() {
                key_registry.insert_eternal_key(action_key)
            } else {
                key_registry.insert_key(action_key, time)
            };
            let (subkey1, subkey2) = key_id.into_raw_parts();
            proof {
                assert(key_registry@.dom() =~= kept.dom().insert(key_id));
                assert(key_registry@.remove(key_id) =~= kept.remove(key_id));
            }
            Ok(Some(EventKey { subkey1: subkey1 as u64, subkey2 }))
        },
    }
}

/// The identifier of the registered key that stands for an event key.
pub open spec fn key_id(key: EventKey) -> KeyRegistryId {
    KeyRegistryId { index: key.subkey1 as usize, epoch: key.subkey2 }
}

/// What happens when an event is cancelled.
pub open spec fn event_cancelled(
    before: Simulation,
    keys_before: KeyRegistry,
    key: EventKey,
    result: Result<(), Error>,
    after: Simulation,
    keys_after: KeyRegistry,
) -> bool {
    let kept = unexpired(keys_before@, before.now()@);
    if key.subkey1 > usize::MAX {
        &&& result is Err
        &&& result->Err_0.says(ErrorCode::InvalidKey, "invalid event key"@)
        &&& after == before
        &&& keys_after == keys_before
    } else if kept.dom().contains(key_id(key)) {
        &&& result is Ok
        &&& after.same_bench(before)
        &&& after.now() == before.now()
        &&& after.awaiting() == before.awaiting()
        &&& after.scheduled() == cancelled(before.scheduled(), kept[key_id(key)].action_key)
        &&& keys_after@ == kept.remove(key_id(key))
    } else {
        &&& result is Err
        &&& result->Err_0.says(ErrorCode::InvalidKey, "invalid or expired event key"@)
        &&& after == before
        &&& keys_after@ == kept
    }
}

/// Cancels the event with the given key.
pub fn cancel_keyed_event(
    simulation: &mut Simulation,
    key_registry: &mut KeyRegistry,
    key: EventKey,
) -> (result: Result<(), Error>)
    requires
        old(simulation).wf(),
        old(key_registry).wf(),
    ensures
        final(simulation).wf(),
        final(key_registry).wf(),
        event_cancelled(
            *old(simulation),
            *old(key_registry),
            key,
            result,
            *final(simulation),
            *final(key_registry),
        ),
{
    if key.subkey1 > usize::MAX as u64 {
        return Err(to_error(ErrorCode::InvalidKey, "invalid event key"));
    }
    let key_id = KeyRegistryId::from_raw_parts(key.subkey1 as usize, key.subkey2);
    remove_expired(key_registry, simulation.time());
    let ghost kept = key_registry@;
    match key_registry.extract_key(key_id) {
        Some(action_key) => {
            simulation.cancel(action_key);
            Ok(())
        },
        None => {
            assert(key_registry@ =~= kept);
            Err(to_error(ErrorCode::InvalidKey, "invalid or expired event key"))
        },
    }
}

/// Simulation manager.
///
/// A `ControllerService` enables the management of the lifecycle of a
/// simulation.
///
/// Requests that need the simulation to be run are answered once the simulation
/// has gone through all [`Command`]s.
pub enum ControllerService<E, Q> {
    /// There is no simulation.
    NotStarted,
    /// A simulation was started.
    Started {
        /// The simulation.
        simulation: Simulation,
        /// The event sources.
        event_source_registry: Registry<E>,
        /// The query sources.
        query_source_registry: Registry<Q>,
        /// The keys of scheduled events.
        key_registry: KeyRegistry,
    },
}

impl<E, Q> ControllerService<E, Q> {
    /// Whether a simulation was started.
    pub open spec fn started(self) -> bool {
        self is Started
    }

    /// The simulation, if it was started.
    pub open spec fn sim(self) -> Simulation {
        self->simulation
    }

    /// The event sources, if a simulation was started.
    pub open spec fn event_sources(self) -> Registry<E> {
        self->event_source_registry
    }

    /// The query sources, if a simulation was started.
    pub open spec fn query_sources(self) -> Registry<Q> {
        self->query_source_registry
    }

    /// The keys of scheduled events, if a simulation was started.
    pub open spec fn keys(self) -> KeyRegistry {
        self->key_registry
    }

    /// The invariant of the service.
    pub open spec fn wf(self) -> bool {
        self is Started ==> {
            &&& self.sim().wf()
            &&& self.event_sources().wf()
            &&& self.query_sources().wf()
            &&& self.keys().wf()
        }
    }

    /// Whether no request is being processed.
    pub open spec fn idle(self) -> bool {
        self is Started ==> self.sim().awaiting() is Idle
    }

    /// Whether two services differ by nothing but their simulations and the
    /// keys of scheduled events.
    pub open spec fn same_endpoints(self, other: Self) -> bool {
        &&& self.started()
        &&& other.started()
        &&& self.event_sources() == other.event_sources()
        &&& self.query_sources() == other.query_sources()
    }

    /// Returns the current simulation time.
    pub fn time(&self, _request: TimeRequest) -> (result: Result<Timestamp, Error>)
        ensures
            match self {
                ControllerService::Started { simulation, .. } => time_result(
                    simulation.now(),
                    result,
                ),
                ControllerService::NotStarted => result is Err && not_started(result->Err_0),
            },
    {
        match self {
            ControllerService::Started { simulation, .. } => report_time(simulation.time()),
            ControllerService::NotStarted => Err(simulation_not_started_error()),
        }
    }

    /// What happens upon a request to advance simulation time.
    pub open spec fn step_answered(
        before: Self,
        result: Result<Command, Error>,
        after: Self,
    ) -> bool {
        if before.started() {
            &&& after.same_endpoints(before)
            &&& after.keys() == before.keys()
            &&& match result {
                Ok(command) => {
                    &&& !before.sim().terminated()
                    &&& Simulation::stepped(
                        before.sim(),
                        None,
                        command,
                        after.sim(),
                    )
                },
                Err(e) => {
                    &&& before.sim().terminated()
                    &&& e.says(
                        ErrorCode::SimulationTerminated,
                        ExecutionError::Terminated.text(),
                    )
                    &&& after.sim() == before.sim()
                },
            }
        } else {
            &&& result is Err
            &&& not_started(result->Err_0)
            &&& !after.started()
        }
    }

    /// Advances simulation time to that of the next scheduled event, processing
    /// that event as well as all other event scheduled for the same time.
    pub fn step(&mut self, _request: StepRequest) -> (result: Result<Command, Error>)
        requires
            old(self).wf(),
            old(self).idle(),
            old(self).started() ==> old(self).sim().can_repeat(max_instant()),
        ensures
            final(self).wf(),
            Self::step_answered(*old(self), result, *final(self)),
    {
        match self {
            ControllerService::Started { simulation, .. } => match simulation.step() {
                Ok(command) => Ok(command),
                Err(e) => Err(map_execution_error(e)),
            },
            ControllerService::NotStarted => Err(simulation_not_started_error()),
        }
    }

    /// Answers a request to advance simulation time, once it was completed or
    /// has failed.
    pub fn step_reply(&self, outcome: Result<(), ExecutionError>) -> (result: Result<
        Timestamp,
        Error,
    >)
        ensures
            match (*self, outcome) {
                (ControllerService::NotStarted, _) => result is Err && not_started(result->Err_0),
                (ControllerService::Started { simulation, .. }, Ok(_)) => time_result(
                    simulation.now(),
                    result,
                ),
                (ControllerService::Started { .. }, Err(e)) => result is Err
                    && result->Err_0.says(execution_error_code(e), e.text()),
            },
    {
        match self {
            ControllerService::Started { simulation, .. } => match outcome {
                Ok(_) => report_time(simulation.time()),
                Err(e) => Err(map_execution_error(e)),
            },
            ControllerService::NotStarted => Err(simulation_not_started_error()),
        }
    }

    /// What happens upon a request to advance simulation time until a deadline.
    pub open spec fn step_until_answered(
        before: Self,
        request: StepUntilRequest,
        result: Result<Command, Error>,
        after: Self,
    ) -> bool {
        if before.started() {
            &&& after.same_endpoints(before)
            &&& after.keys() == before.keys()
            &&& stepped_until(
                before.sim(),
                request,
                result,
                after.sim(),
            )
        } else {
            &&& result is Err
            &&& not_started(result->Err_0)
            &&& !after.started()
        }
    }

    /// Iteratively advances the simulation time until the specified deadline,
    /// as if by calling [`Simulation::step()`] repeatedly.
    ///
    /// The simulation time upon completion is equal to the specified target
    /// time, whether or not an event was scheduled for that time.
    pub fn step_until(&mut self, request: StepUntilRequest) -> (result: Result<Command, Error>)
        requires
            old(self).wf(),
            old(self).idle(),
            old(self).started() ==> can_step_until(old(self).sim(), request),
        ensures
            final(self).wf(),
            Self::step_until_answered(*old(self), request, result, *final(self)),
    {
        match self {
            ControllerService::Started { simulation, .. } => {
                let time = match check_target(request.deadline, &simulation.time()) {
                    Ok(time) => time,
                    Err(e) => return Err(e),
                };
                proof {
                    time.lemma_at_own_instant();
                }
                step_until_target(simulation, time)
            },
            ControllerService::NotStarted => Err(simulation_not_started_error()),
        }
    }

    /// What happens upon a request to schedule an event.
    pub open spec fn schedule_answered<F>(
        before: Self,
        request: ScheduleEventRequest,
        decode: F,
        result: Result<Option<EventKey>, Error>,
        after: Self,
    ) -> bool where F: FnOnce(&E, &Vec<u8>) -> Result<u64, CodecError> {
        if before.started() {
            &&& after.same_endpoints(before)
            &&& match schedule_refusal(request, before.event_sources()) {
                Some(refusal) => {
                    &&& result is Err
                    &&& result->Err_0.says(refusal.0, refusal.1)
                    &&& after.sim() == before.sim()
                    &&& after.keys() == before.keys()
                },
                None => exists|decoded: Result<u64, CodecError>| #[trigger]
                    decode.ensures(
                        (
                            &before.event_sources().item(request.source_name@),
                            &request.event,
                        ),
                        decoded,
                    ) && event_decoded(
                        before.sim(),
                        before.keys(),
                        request,
                        decoded,
                        true,
                        result,
                        after.sim(),
                        after.keys(),
                    ),
            }
        } else {
            &&& result is Err
            &&& not_started(result->Err_0)
            &&& !after.started()
        }
    }

    /// Schedules an event at a future time.
    ///
    /// The argument of the decoding function is the event source and the
    /// serialized event; it returns a number that designates the event. If the
    /// event is requested with a key, this number is also the key that is drawn for
    /// the event and must therefore be a new one.
    pub fn schedule_event<F>(&mut self, request: ScheduleEventRequest, decode: F) -> (result:
        Result<Option<EventKey>, Error>) where
        F: FnOnce(&E, &Vec<u8>) -> Result<u64, CodecError>,

        requires
            old(self).wf(),
            old(self).started() ==> can_schedule(old(self).sim(), old(self).keys(), request)
                && draws_new_keys::<E, F>(old(self).sim(), old(self).keys(), request, decode),
            forall|source: &E, event: &Vec<u8>| decode.requires((source, event)),
        ensures
            final(self).wf(),
            Self::schedule_answered(*old(self), request, decode, result, *final(self)),
    {
        match self {
            ControllerService::Started {
                simulation,
                event_source_registry,
                key_registry,
                ..
            } => {
                let period = match check_period(request.period) {
                    Ok(period) => period,
                    Err(e) => return Err(e),
                };
                let time = match check_deadline(request.deadline, &simulation.time()) {
                    Ok(time) => time,
                    Err(e) => return Err(e),
                };
                let source = match event_source_registry.get(request.source_name.as_str()) {
                    Some(source) => source,
                    None => return Err(
                        to_error_with_name(
                            ErrorCode::SourceNotFound,
                            "no event source is registered with the name",
                            request.source_name.as_str(),
                        ),
                    ),
                };
                let decoded = decode(source, &request.event);
                schedule_decoded(
                    simulation,
                    key_registry,
                    &request,
                    period,
                    time,
                    decoded,
                    true,
                )
            },
            ControllerService::NotStarted => Err(simulation_not_started_error()),
        }
    }

    /// What happens upon a request to cancel an event.
    pub open spec fn cancel_answered(
        before: Self,
        request: CancelEventRequest,
        result: Result<(), Error>,
        after: Self,
    ) -> bool {
        if before.started() {
            &&& after.same_endpoints(before)
            &&& match request.key {
                Some(key) => event_cancelled(
                    before.sim(),
                    before.keys(),
                    key,
                    result,
                    after.sim(),
                    after.keys(),
                ),
                None => {
                    &&& result is Err
                    &&& result->Err_0.says(
                        ErrorCode::MissingArgument,
                        "missing key argument"@,
                    )
                    &&& after.sim() == before.sim()
                    &&& after.keys() == before.keys()
                },
            }
        } else {
            &&& result is Err
            &&& not_started(result->Err_0)
            &&& !after.started()
        }
    }

    /// Cancels a keyed event.
    pub fn cancel_event(&mut self, request: CancelEventRequest) -> (result: Result<(), Error>)
        requires
            old(self).wf(),
        ensures
            final(self).wf(),
            Self::cancel_answered(*old(self), request, result, *final(self)),
    {
        match self {
            ControllerService::Started { simulation, key_registry, .. } => match request.key {
                Some(key) => cancel_keyed_event(simulation, key_registry, key),
                None => Err(to_error(ErrorCode::MissingArgument, "missing key argument")),
            },
            ControllerService::NotStarted => Err(simulation_not_started_error()),
        }
    }

    /// What happens upon a request to process an event.
    pub open spec fn event_answered<F>(
        before: Self,
        request: ProcessEventRequest,
        decode: F,
        result: Result<(u64, Command), Error>,
        after: Self,
    ) -> bool where F: FnOnce(&E, &Vec<u8>) -> Result<u64, CodecError> {
        if before.started() {
            &&& after.same_endpoints(before)
            &&& after.keys() == before.keys()
            &&& if before.event_sources().has(request.source_name@) {
                exists|decoded: Result<u64, CodecError>| #[trigger]
                    decode.ensures(
                        (
                            &before.event_sources().item(request.source_name@),
                            &request.event,
                        ),
                        decoded,
                    ) && message_processed(
                        before.sim(),
                        decoded,
                        "the event could not be deserialized as type"@,
                        true,
                        result,
                        after.sim(),
                    )
            } else {
                &&& result is Err
                &&& source_not_found(result->Err_0, request.source_name@)
                &&& after.sim() == before.sim()
            }
        } else {
            &&& result is Err
            &&& not_started(result->Err_0)
            &&& !after.started()
        }
    }

    /// Broadcasts an event from an event source immediately.
    ///
    /// The argument of the decoding function is the event source and the
    /// serialized event; it returns a number that designates the event. The
    /// event must be spawned on the executor before the command is executed.
    /// Simulation time remains unchanged.
    pub fn process_event<F>(&mut self, request: ProcessEventRequest, decode: F) -> (result: Result<
        (u64, Command),
        Error,
    >) where F: FnOnce(&E, &Vec<u8>) -> Result<u64, CodecError>
        requires
            old(self).wf(),
            old(self).idle(),
            forall|source: &E, event: &Vec<u8>| decode.requires((source, event)),
        ensures
            final(self).wf(),
            Self::event_answered(*old(self), request, decode, result, *final(self)),
    {
        match self {
            ControllerService::Started { simulation, event_source_registry, .. } => {
                let source = match event_source_registry.get(request.source_name.as_str()) {
                    Some(source) => source,
                    None => return Err(
                        to_error_with_name(
                            ErrorCode::SourceNotFound,
                            "no source is registered with the name",
                            request.source_name.as_str(),
                        ),
                    ),
                };
                let decoded = decode(source, &request.event);
                process_decoded(
                    simulation,
                    decoded,
                    "the event could not be deserialized as type",
                    true,
                )
            },
            ControllerService::NotStarted => Err(simulation_not_started_error()),
        }
    }

    /// Answers a request to process an event, once it was completed or has
    /// failed.
    pub fn process_event_reply(&self, outcome: Result<(), ExecutionError>) -> (result: Result<
        (),
        Error,
    >)
        ensures
            match outcome {
                Ok(_) => result is Ok,
                Err(e) => result is Err && result->Err_0.says(execution_error_code(e), e.text()),
            },
    {
        match outcome {
            Ok(_) => Ok(()),
            Err(e) => Err(map_execution_error(e)),
        }
    }

    /// What happens upon a request to process a query.
    pub open spec fn query_answered<F>(
        before: Self,
        request: ProcessQueryRequest,
        decode: F,
        result: Result<(u64, Command), Error>,
        after: Self,
    ) -> bool where F: FnOnce(&Q, &Vec<u8>) -> Result<u64, CodecError> {
        if before.started() {
            &&& after.same_endpoints(before)
            &&& after.keys() == before.keys()
            &&& if before.query_sources().has(request.source_name@) {
                exists|decoded: Result<u64, CodecError>| #[trigger]
                    decode.ensures(
                        (
                            &before.query_sources().item(request.source_name@),
                            &request.request,
                        ),
                        decoded,
                    ) && message_processed(
                        before.sim(),
                        decoded,
                        "the request could not be deserialized as type"@,
                        true,
                        result,
                        after.sim(),
                    )
            } else {
                &&& result is Err
                &&& source_not_found(result->Err_0, request.source_name@)
                &&& after.sim() == before.sim()
            }
        } else {
            &&& result is Err
            &&& not_started(result->Err_0)
            &&& !after.started()
        }
    }

    /// Broadcasts a query from a query source immediately.
    ///
    /// The argument of the decoding function is the query source and the
    /// serialized query; it returns a number that designates the query. The
    /// query must be spawned on the executor before the command is executed.
    /// Simulation time remains unchanged.
    pub fn process_query<F>(&mut self, request: ProcessQueryRequest, decode: F) -> (result: Result<
        (u64, Command),
        Error,
    >) where F: FnOnce(&Q, &Vec<u8>) -> Result<u64, CodecError>
        requires
            old(self).wf(),
            old(self).idle(),
            forall|source: &Q, query: &Vec<u8>| decode.requires((source, query)),
        ensures
            final(self).wf(),
            Self::query_answered(*old(self), request, decode, result, *final(self)),
    {
        match self {
            ControllerService::Started { simulation, query_source_registry, .. } => {
                let source = match query_source_registry.get(request.source_name.as_str()) {
                    Some(source) => source,
                    None => return Err(
                        to_error_with_name(
                            ErrorCode::SourceNotFound,
                            "no source is registered with the name",
                            request.source_name.as_str(),
                        ),
                    ),
                };
                let decoded = decode(source, &request.request);
                process_decoded(
                    simulation,
                    decoded,
                    "the request could not be deserialized as type",
                    true,
                )
            },
            ControllerService::NotStarted => Err(simulation_not_started_error()),
        }
    }

    /// Answers a request to process a query, once it was completed or has
    /// failed.
    ///
    /// The serialized replies are provided if there are any.
    pub fn process_query_reply(
        &self,
        outcome: Result<(), ExecutionError>,
        replies: Option<Result<Vec<Vec<u8>>, CodecError>>,
    ) -> (result: Result<Vec<Vec<u8>>, Error>)
        ensures
            match (outcome, replies) {
                (Err(e), _) => result is Err && result->Err_0.says(
                    execution_error_code(e),
                    e.text(),
                ),
                (Ok(_), None) => result is Err && result->Err_0.says(
                    ErrorCode::InternalError,
                    "a reply to the query was expected but none was available"@,
                ),
                (Ok(_), Some(Err(e))) => result is Err && result->Err_0.says(
                    ErrorCode::InvalidMessage,
                    codec_text("the reply could not be serialized as type"@, e, true),
                ),
                (Ok(_), Some(Ok(replies))) => result == Ok::<Vec<Vec<u8>>, Error>(replies),
            },
    {
        if let Err(e) = outcome {
            return Err(map_execution_error(e));
        }
        match replies {
            None => Err(
                to_error(
                    ErrorCode::InternalError,
                    "a reply to the query was expected but none was available",
                ),
            ),
            Some(Ok(replies)) => Ok(replies),
            Some(Err(e)) => Err(codec_error("the reply could not be serialized as type", &e, true)),
        }
    }
}

/// Schedules an event if it could be decoded.
pub fn schedule_decoded(
    simulation: &mut Simulation,
    key_registry: &mut KeyRegistry,
    request: &ScheduleEventRequest,
    period: Option<Duration>,
    time: MonotonicTime,
    decoded: Result<u64, CodecError>,
    detailed: bool,
) -> (result: Result<Option<EventKey>, Error>)
    requires
        old(simulation).wf(),
        old(key_registry).wf(),
        request.with_key ==> old(key_registry).has_room(),
        request.with_key && decoded is Ok ==> is_unused(
            decoded->Ok_0,
            *old(simulation),
            *old(key_registry),
        ),
        is_period(request.period, period),
        request.deadline is Some,
        time@ == deadline_instant(request.deadline->Some_0, old(simulation).now()@),
    ensures
        final(simulation).wf(),
        final(key_registry).wf(),
        event_decoded(
            *old(simulation),
            *old(key_registry),
            *request,
            decoded,
            detailed,
            result,
            *final(simulation),
            *final(key_registry),
        ),
{
    match decoded {
        Ok(id) => {
            let action = Action {
                id,
                period,
                key: if request.with_key {
                    Some(id)
                } else {
                    None
                },
            };
            let result = schedule_action(simulation, key_registry, time, action);
            assert(is_event(*request, old(simulation).now()@, id, time, action));
            result
        },
        Err(e) => Err(codec_error("the event could not be deserialized as type", &e, detailed)),
    }
}

/// Whether an error tells that there is no source with the given name.
pub open spec fn source_not_found(error: Error, name: Seq<char>) -> bool {
    error.says(
        ErrorCode::SourceNotFound,
        with_name("no source is registered with the name"@, name),
    )
}

/// What happens when the decoding of a message to be processed immediately has
/// succeeded or failed.
pub open spec fn message_processed(
    before: Simulation,
    decoded: Result<u64, CodecError>,
    what: Seq<char>,
    detailed: bool,
    result: Result<(u64, Command), Error>,
    after: Simulation,
) -> bool {
    match decoded {
        Ok(id) => match result {
            Ok((processed, command)) => {
                &&& processed == id
                &&& Simulation::processed(before, Ok(command), after)
            },
            Err(e) => {
                &&& before.terminated()
                &&& e.says(ErrorCode::SimulationTerminated, ExecutionError::Terminated.text())
                &&& after == before
            },
        },
        Err(error) => {
            &&& result is Err
            &&& result->Err_0.says(ErrorCode::InvalidMessage, codec_text(what, error, detailed))
            &&& after == before
        },
    }
}

/// Processes a message immediately if it could be decoded.
pub fn process_decoded(
    simulation: &mut Simulation,
    decoded: Result<u64, CodecError>,
    what: &str,
    detailed: bool,
) -> (result: Result<(u64, Command), Error>)
    requires
        old(simulation).wf(),
        old(simulation).awaiting() is Idle,
    ensures
        final(simulation).wf(),
        message_processed(*old(simulation), decoded, what@, detailed, result, *final(simulation)),
{
    match decoded {
        Ok(id) => match simulation.process() {
            Ok(command) => Ok((id, command)),
            Err(e) => Err(map_execution_error(e)),
        },
        Err(e) => Err(codec_error(what, &e, detailed)),
    }
}

/// What happens when simulation time is advanced until a deadline.
pub open spec fn stepped_until(
    before: Simulation,
    request: StepUntilRequest,
    result: Result<Command, Error>,
    after: Simulation,
) -> bool {
    match target_refusal(request.deadline) {
        Some(refusal) => {
            &&& result is Err
            &&& result->Err_0.says(refusal.0, refusal.1)
            &&& after == before
        },
        None => {
            let target = deadline_instant(request.deadline->Some_0, before.now()@);
            match result {
                Ok(command) => {
                    &&& !before.terminated()
                    &&& before.now()@ <= target
                    &&& Simulation::stepped(before, Some(MonotonicTime::at(target)), command, after)
                },
                Err(e) => {
                    &&& after == before
                    &&& if before.terminated() {
                        e.says(ErrorCode::SimulationTerminated, ExecutionError::Terminated.text())
                    } else {
                        &&& target < before.now()@
                        &&& e.says(
                            ErrorCode::InvalidTime,
                            "the specified deadline lies in the past"@,
                        )
                    }
                },
            }
        },
    }
}

/// Advances simulation time until a deadline.
pub fn step_until_target(simulation: &mut Simulation, time: MonotonicTime) -> (result: Result<
    Command,
    Error,
>)
    requires
        old(simulation).wf(),
        old(simulation).awaiting() is Idle,
        old(simulation).can_repeat(time@),
    ensures
        final(simulation).wf(),
        match result {
            Ok(command) => {
                &&& !old(simulation).terminated()
                &&& old(simulation).now()@ <= time@
                &&& Simulation::stepped(*old(simulation), Some(time), command, *final(simulation))
            },
            Err(e) => {
                &&& *final(simulation) == *old(simulation)
                &&& if old(simulation).terminated() {
                    e.says(ErrorCode::SimulationTerminated, ExecutionError::Terminated.text())
                } else {
                    &&& time@ < old(simulation).now()@
                    &&& e.says(ErrorCode::InvalidTime, "the specified deadline lies in the past"@)
                }
            },
        },
{
    match simulation.step_until(time) {
        Ok(command) => Ok(command),
        Err(ExecutionError::InvalidDeadline(_)) => Err(
            to_error(ErrorCode::InvalidTime, "the specified deadline lies in the past"),
        ),
        Err(e) => Err(map_execution_error(e)),
    }
}

/// The reason for refusing to schedule an event that was not decoded yet, if
/// any.
pub open spec fn schedule_refusal<E>(request: ScheduleEventRequest, sources: Registry<E>) -> Option<
    (ErrorCode, Seq<char>),
> {
    if request.period is Some && !is_strictly_positive(request.period->Some_0) {
        Some(
            (
                ErrorCode::InvalidDuration,
                "the specified event period is not strictly positive"@,
            ),
        )
    } else if deadline_refusal(request.deadline) is Some {
        deadline_refusal(request.deadline)
    } else if !sources.has(request.source_name@) {
        Some(
            (
                ErrorCode::SourceNotFound,
                with_name(
                    "no event source is registered with the name"@,
                    request.source_name@,
                ),
            ),
        )
    } else {
        None
    }
}

/// Whether an action stands for the requested event.
pub open spec fn is_event(
    request: ScheduleEventRequest,
    now: int,
    id: u64,
    time: MonotonicTime,
    action: Action,
) -> bool {
    &&& time@ == deadline_instant(request.deadline->Some_0, now)
    &&& action.id == id
    &&& is_period(request.period, action.period)
    &&& action.key == if request.with_key {
        Some(id)
    } else {
        None
    }
}

/// What happens when the decoding of an event to be scheduled has succeeded or
/// failed.
pub open spec fn event_decoded(
    before: Simulation,
    keys_before: KeyRegistry,
    request: ScheduleEventRequest,
    decoded: Result<u64, CodecError>,
    detailed: bool,
    result: Result<Option<EventKey>, Error>,
    after: Simulation,
    keys_after: KeyRegistry,
) -> bool {
    match decoded {
        Ok(id) => {
            &&& request.with_key ==> is_unused(id, before, keys_before)
            &&& exists|time: MonotonicTime, action: Action| #[trigger]
                is_event(request, before.now()@, id, time, action) && #[trigger] event_scheduled(
                    before,
                    keys_before,
                    time,
                    action,
                    result,
                    after,
                    keys_after,
                )
        },
        Err(e) => {
            &&& result is Err
            &&& result->Err_0.says(
                ErrorCode::InvalidMessage,
                codec_text("the event could not be deserialized as type"@, e, detailed),
            )
            &&& after == before
            &&& keys_after == keys_before
        },
    }
}

/// An event that was scheduled with a key can be cancelled with that key, as
/// long as simulation time has not passed the time of the event or if the event
/// is periodic. The event will then never be performed.
///
/// The simulation is found in the state `later` when the event is cancelled.
pub proof fn law_keyed_events_can_be_cancelled(
    before: Simulation,
    keys_before: KeyRegistry,
    time: MonotonicTime,
    action: Action,
    key: EventKey,
    scheduled: Simulation,
    keys: KeyRegistry,
    later: Simulation,
    result: Result<(), Error>,
    after: Simulation,
    keys_after: KeyRegistry,
    at: int,
    i: int,
)
    requires
        event_scheduled(
            before,
            keys_before,
            time,
            action,
            Ok(Some(key)),
            scheduled,
            keys,
        ),
        later.now().wf(),
        action.period is Some || later.now()@ <= time@,
        event_cancelled(later, keys, key, result, after, keys_after),
    ensures
        result is Ok,
        0 <= i < due(after.scheduled(), at).len() ==> due(after.scheduled(), at)[i].action.key
            != action.key,
        !keys_after@.dom().contains(key_id(key)),
{
    assert(keys@.dom().contains(key_id(key)));
    let kept = unexpired(keys@, later.now()@);
    later.now().lemma_latest();
    assert(kept.dom().contains(key_id(key)));
    assert(kept[key_id(key)].action_key == action.key->Some_0);
    if 0 <= i < due(after.scheduled(), at).len() {
        law_cancelled_actions_are_not_performed(
            later.scheduled(),
            action.key->Some_0,
            at,
            i,
        );
    }
}

/// A key cancels one event only: if the event with a new key is scheduled and then
/// cancelled, all other scheduled actions remain as they were.
///
/// The place of the event among all scheduled actions is returned.
pub proof fn law_key_cancels_one_event_only(
    before: Simulation,
    keys_before: KeyRegistry,
    time: MonotonicTime,
    action: Action,
    key: EventKey,
    scheduled: Simulation,
    keys: KeyRegistry,
    result: Result<(), Error>,
    after: Simulation,
    keys_after: KeyRegistry,
) -> (at: int)
    requires
        action.key is Some,
        is_unused(action.key->Some_0, before, keys_before),
        event_scheduled(
            before,
            keys_before,
            time,
            action,
            Ok(Some(key)),
            scheduled,
            keys,
        ),
        event_cancelled(scheduled, keys, key, result, after, keys_after),
        before.wf(),
        scheduled.now().wf(),
    ensures
        result is Ok,
        0 <= at < scheduled.scheduled().len(),
        scheduled.scheduled()[at].action == action,
        scheduled.scheduled().remove(at) == before.scheduled(),
        after.scheduled().len() == scheduled.scheduled().len(),
        after.scheduled()[at].cancelled,
        after.scheduled().remove(at) == before.scheduled(),
{
    let new = ScheduledAction { time, channel_id: GLOBAL_ORIGIN, action, cancelled: false };
    before.lemma_in_order();
    let at = law_insertion_is_stable(before.scheduled(), new);
    let kept = unexpired(keys@, scheduled.now()@);
    scheduled.now().lemma_latest();
    assert(kept.dom().contains(key_id(key)));
    assert(scheduled.scheduled().remove(at) =~= before.scheduled());
    assert forall|i: int| 0 <= i < before.scheduled().len() implies #[trigger] after.scheduled().remove(
        at,
    )[i] == before.scheduled()[i] by {
        let j = if i < at {
            i
        } else {
            i + 1
        };
        assert(scheduled.scheduled()[j] == before.scheduled()[i]);
        law_other_actions_are_kept(scheduled.scheduled(), action.key->Some_0, j);
    }
    assert(after.scheduled().remove(at) =~= before.scheduled());
    at
}

/// Cancelling an event does not affect any action with another key or without a
/// key.
pub proof fn law_other_events_are_kept(
    before: Simulation,
    keys_before: KeyRegistry,
    key: EventKey,
    result: Result<(), Error>,
    after: Simulation,
    keys_after: KeyRegistry,
    i: int,
)
    requires
        event_cancelled(before, keys_before, key, result, after, keys_after),
        0 <= i < before.scheduled().len(),
        before.scheduled()[i].action.key is Some ==> !keys_before@.dom().contains(key_id(key))
            || before.scheduled()[i].action.key->Some_0 != keys_before@[key_id(key)].action_key,
    ensures
        after.scheduled().len() == before.scheduled().len(),
        after.scheduled()[i] == before.scheduled()[i],
{
}

/// A request to schedule an event that is refused changes nothing.
pub proof fn law_refused_scheduling_changes_nothing<E, Q, F>(
    before: ControllerService<E, Q>,
    request: ScheduleEventRequest,
    decode: F,
    result: Result<Option<EventKey>, Error>,
    after: ControllerService<E, Q>,
) where F: FnOnce(&E, &Vec<u8>) -> Result<u64, CodecError>
    requires
        before.started(),
        ControllerService::schedule_answered(before, request, decode, result, after),
        result is Err,
    ensures
        after.sim() == before.sim(),
        after.keys() == before.keys(),
        after.same_endpoints(before),
{
}

/// What becomes of an event that was decoded, stated of an arbitrary time and origin
/// and of an arbitrary key.
///
/// The event is scheduled if and only if its time lies in the future. It then comes
/// behind all actions with the same time and origin, and nothing else changes for
/// the simulation. If it has a key, the key is registered and stays valid until the
/// time of the event, or for ever if the event is periodic; no other key is lost
/// unless it had expired before the current time.
pub proof fn law_scheduled_event(
    before: Simulation,
    keys_before: KeyRegistry,
    time: MonotonicTime,
    action: Action,
    result: Result<Option<EventKey>, Error>,
    after: Simulation,
    keys_after: KeyRegistry,
    at: int,
    channel_id: usize,
    id: KeyRegistryId,
)
    requires
        event_scheduled(before, keys_before, time, action, result, after, keys_after),
    ensures
        result is Ok <==> before.now()@ < time@,
        after.now() == before.now(),
        after.awaiting() == before.awaiting(),
        after.terminated() == before.terminated(),
        after.tolerance() == before.tolerance(),
        after.step_timeout() == before.step_timeout(),
        after.observed() == before.observed(),
        after.models() == before.models(),
        result is Err ==> after == before && keys_after == keys_before,
        result is Ok ==> after.scheduled().filter_map(
                |e: ScheduledAction|
                    if e.time@ == at && e.channel_id == channel_id && !e.cancelled {
                        Some(e.action)
                    } else {
                        None
                    },
            ) == before.scheduled().filter_map(
                |e: ScheduledAction|
                    if e.time@ == at && e.channel_id == channel_id && !e.cancelled {
                        Some(e.action)
                    } else {
                        None
                    },
            ) + (if at == time@ && channel_id == 0 {
            seq![action]
        } else {
            Seq::empty()
        }),
        result is Ok ==> after.scheduled().len() == before.scheduled().len() + 1,
        result matches Ok(key) ==> (key is Some <==> action.key is Some),
        result == Ok::<Option<EventKey>, Error>(None) ==> keys_after == keys_before,
        result matches Ok(Some(key)) ==> {
            let own = id.index == key.subkey1 && id.epoch == key.subkey2;
            let kept = keys_before@.dom().contains(id) && keys_before@[id].expiration@
                >= before.now()@;
            &&& keys_after@.dom().contains(id) <==> own || kept
            &&& !(own && kept)
            &&& kept ==> keys_after@[id] == keys_before@[id]
            &&& own ==> Some(keys_after@[id].action_key) == action.key
            &&& own && action.period is None ==> keys_after@[id].expiration@ == time@
            &&& own && action.period is Some ==> keys_after@[id].expiration@ == i64::MAX
                * 1_000_000_000 + 999_999_999
        },
{
    let new = ScheduledAction { time, channel_id: GLOBAL_ORIGIN, action, cancelled: false };
    if result is Ok {
        law_insertion_adds_one_action(before.scheduled(), new, at, channel_id);
    }
    if let Ok(Some(key)) = result {
        let own = KeyRegistryId { index: key.subkey1 as usize, epoch: key.subkey2 };
        let kept = unexpired(keys_before@, before.now()@);
        if id != own {
            assert(keys_after@.remove(own).dom().contains(id) == keys_after@.dom().contains(id));
            assert(kept.remove(own).dom().contains(id) == kept.dom().contains(id));
            if kept.dom().contains(id) {
                assert(keys_after@.remove(own)[id] == keys_after@[id]);
                assert(kept.remove(own)[id] == kept[id]);
            }
        }
    }
}

/// A request to schedule an event that could be decoded stands for the decoded event:
/// it occurs at the requested time or after the requested time span, with the
/// requested period, nanoseconds included, and has a key if and only if one was
/// requested.
///
/// The time and the action are returned.
pub proof fn law_requested_event(
    before: Simulation,
    keys_before: KeyRegistry,
    request: ScheduleEventRequest,
    id: u64,
    detailed: bool,
    result: Result<Option<EventKey>, Error>,
    after: Simulation,
    keys_after: KeyRegistry,
) -> (event: (MonotonicTime, Action))
    requires
        event_decoded(
            before,
            keys_before,
            request,
            Ok(id),
            detailed,
            result,
            after,
            keys_after,
        ),
    ensures
        event_scheduled(before, keys_before, event.0, event.1, result, after, keys_after),
        request.with_key ==> is_unused(id, before, keys_before),
        request.deadline matches Some(deadline) ==> event.0@ == match deadline {
            Deadline::Time(timestamp) => timestamp.seconds * 1_000_000_000 + timestamp.nanos,
            Deadline::Duration(span) => before.now()@ + span.seconds * 1_000_000_000 + span.nanos,
        },
        event.1.id == id,
        event.1.key == if request.with_key {
            Some(id)
        } else {
            None
        },
        event.1.period is Some <==> request.period is Some,
        request.period matches Some(span) ==> event.1.period->Some_0@ == span.seconds
            * 1_000_000_000 + span.nanos,
{
    let (time, action) = choose|time: MonotonicTime, action: Action| #[trigger]
        is_event(request, before.now()@, id, time, action) && #[trigger] event_scheduled(
            before,
            keys_before,
            time,
            action,
            result,
            after,
            keys_after,
        );
    (time, action)
}

/// The reasons for which a request to schedule an event is refused, in order: the
/// period is negative or null; there is no deadline; the deadline is not a valid time
/// or does not lie in the future; there is no such source. A request that is not
/// refused is carried out.
pub proof fn law_refused_events<E>(request: ScheduleEventRequest, sources: Registry<E>)
    ensures
        ({
            let bad_period = request.period matches Some(span) && (span.seconds < 0 || span.nanos
                < 0 || (span.seconds == 0 && span.nanos == 0));
            let bad_deadline = match request.deadline {
                None => true,
                Some(Deadline::Time(timestamp)) => timestamp.nanos < 0 || timestamp.nanos
                    > 999_999_999,
                Some(Deadline::Duration(span)) => span.seconds < 0 || span.nanos < 0 || (
                span.seconds == 0 && span.nanos == 0),
            };
            &&& schedule_refusal(request, sources) is None <==> !bad_period && !bad_deadline
                && sources.has(request.source_name@)
            &&& bad_period ==> schedule_refusal(request, sources) == Some(
                (
                    ErrorCode::InvalidDuration,
                    "the specified event period is not strictly positive"@,
                ),
            )
            &&& !bad_period && bad_deadline ==> schedule_refusal(request, sources)->Some_0.0
                == match request.deadline {
                None => ErrorCode::MissingArgument,
                Some(Deadline::Time(_)) => ErrorCode::InvalidTime,
                Some(Deadline::Duration(_)) => ErrorCode::InvalidDuration,
            }
            &&& !bad_period && !bad_deadline && !sources.has(request.source_name@)
                ==> schedule_refusal(request, sources)->Some_0.0 == ErrorCode::SourceNotFound
        }),
{
}

/// What becomes of an event that is cancelled, stated of an arbitrary time and origin
/// and of an arbitrary registered key.
///
/// An event key is accepted if and only if it is registered and has not expired. The
/// actions with the key that is registered are then withdrawn, and no others, and
/// the event key is not valid any more. No other key is lost unless it had expired.
pub proof fn law_cancelled_event(
    before: Simulation,
    keys_before: KeyRegistry,
    key: EventKey,
    result: Result<(), Error>,
    after: Simulation,
    keys_after: KeyRegistry,
    at: int,
    channel_id: usize,
    id: KeyRegistryId,
)
    requires
        event_cancelled(before, keys_before, key, result, after, keys_after),
        id.index == key.subkey1,
        id.epoch == key.subkey2,
    ensures
        result is Ok <==> keys_before@.dom().contains(id) && keys_before@[id].expiration@
            >= before.now()@,
        result matches Err(e) ==> e.code == ErrorCode::InvalidKey && after == before,
        after.now() == before.now(),
        after.awaiting() == before.awaiting(),
        after.terminated() == before.terminated(),
        after.tolerance() == before.tolerance(),
        after.step_timeout() == before.step_timeout(),
        after.observed() == before.observed(),
        after.models() == before.models(),
        result is Ok ==> after.scheduled().filter_map(
                |e: ScheduledAction|
                    if e.time@ == at && e.channel_id == channel_id && !e.cancelled {
                        Some(e.action)
                    } else {
                        None
                    },
            ) == before.scheduled().filter_map(
            |e: ScheduledAction|
                if e.time@ == at && e.channel_id == channel_id && !e.cancelled && e.action.key
                    != Some(keys_before@[id].action_key) {
                    Some(e.action)
                } else {
                    None
                },
        ),
        forall|other: KeyRegistryId| #[trigger]
            keys_after@.dom().contains(other) <==> other != id && keys_before@.dom().contains(other)
                && keys_before@[other].expiration@ >= before.now()@,
        forall|other: KeyRegistryId| #[trigger]
            keys_after@.dom().contains(other) ==> keys_after@[other] == keys_before@[other],
{
    let kept = unexpired(keys_before@, before.now()@);
    assert(key_id(key) == id);
    if kept.dom().contains(id) {
        law_cancellation_withdraws_actions(
            before.scheduled(),
            kept[id].action_key,
            at,
            channel_id,
        );
        assert(kept[id] == keys_before@[id]);
    }
}

/// An event key with a first part that is too large for an index is refused, whatever
/// keys are registered.
pub proof fn law_too_large_event_key(
    before: Simulation,
    keys_before: KeyRegistry,
    key: EventKey,
    result: Result<(), Error>,
    after: Simulation,
    keys_after: KeyRegistry,
)
    requires
        event_cancelled(before, keys_before, key, result, after, keys_after),
        key.subkey1 > usize::MAX,
    ensures
        result matches Err(e) && e.code == ErrorCode::InvalidKey,
        after == before,
        keys_after == keys_before,
{
}

/// A request to advance simulation time until a deadline moves it until exactly the
/// requested time, or by exactly the requested time span, nanoseconds included. It is
/// refused if the simulation is terminated or if the deadline is missing, not valid
/// or lies in the past.
pub proof fn law_requested_target(
    before: Simulation,
    request: StepUntilRequest,
    result: Result<Command, Error>,
    after: Simulation,
)
    requires
        stepped_until(before, request, result, after),
    ensures
        ({
            let target = match request.deadline {
                Some(Deadline::Time(timestamp)) => timestamp.seconds * 1_000_000_000
                    + timestamp.nanos,
                Some(Deadline::Duration(span)) => before.now()@ + span.seconds * 1_000_000_000
                    + span.nanos,
                None => 0,
            };
            let valid = match request.deadline {
                Some(Deadline::Time(timestamp)) => 0 <= timestamp.nanos <= 999_999_999,
                Some(Deadline::Duration(span)) => 0 <= span.seconds && 0 <= span.nanos,
                None => false,
            };
            let time = MonotonicTime::at(target);
            &&& result is Ok <==> valid && !before.terminated() && before.now()@ <= target
            &&& target <= i64::MAX * 1_000_000_000 + 999_999_999 ==> (result matches Ok(command)
                ==> time@ == target && Simulation::step_until_result(
                before,
                time,
                Ok(command),
                after,
            ))
            &&& result matches Err(e) ==> {
                &&& after == before
                &&& e.code == match request.deadline {
                    None => ErrorCode::MissingArgument,
                    Some(Deadline::Time(_)) => if valid && before.terminated() {
                        ErrorCode::SimulationTerminated
                    } else {
                        ErrorCode::InvalidTime
                    },
                    Some(Deadline::Duration(_)) => if valid {
                        ErrorCode::SimulationTerminated
                    } else {
                        ErrorCode::InvalidDuration
                    },
                }
            }
        }),
{
    before.now().lemma_earliest();
    if let Some(deadline) = request.deadline {
        let target = deadline_instant(deadline, before.now()@);
        if before.now()@ <= target <= max_instant() {
            MonotonicTime::lemma_at(target);
        }
    }
}

/// A message is processed immediately if it could be decoded and the simulation is
/// not terminated. The decoded message is the one that is processed.
pub proof fn law_immediate_processing(
    before: Simulation,
    decoded: Result<u64, CodecError>,
    what: Seq<char>,
    detailed: bool,
    result: Result<(u64, Command), Error>,
    after: Simulation,
)
    requires
        message_processed(before, decoded, what, detailed, result, after),
    ensures
        result is Ok <==> decoded is Ok && !before.terminated(),
        result matches Ok(message) ==> Ok::<u64, CodecError>(message.0) == decoded
            && Simulation::processed(before, Ok(message.1), after),
        result matches Err(e) ==> after == before && e.code == if decoded is Ok {
            ErrorCode::SimulationTerminated
        } else {
            ErrorCode::InvalidMessage
        },
        after.now() == before.now(),
        after.scheduled() == before.scheduled(),
{
}

/// A step is refused if and only if there is no simulation or if it is terminated.
/// The sources and the keys remain the same.
pub proof fn law_step_request<E, Q>(
    before: ControllerService<E, Q>,
    result: Result<Command, Error>,
    after: ControllerService<E, Q>,
)
    requires
        ControllerService::step_answered(before, result, after),
    ensures
        result is Ok <==> before.started() && !before.sim().terminated(),
        after.started() == before.started(),
        before.started() ==> after.event_sources() == before.event_sources() && after.query_sources()
            == before.query_sources() && after.keys() == before.keys(),
        result matches Ok(command) ==> Simulation::step_result(
            before.sim(),
            Ok(command),
            after.sim(),
        ),
        result is Err && before.started() ==> after.sim() == before.sim(),
        result matches Err(e) ==> e.code == if before.started() {
            ErrorCode::SimulationTerminated
        } else {
            ErrorCode::SimulationNotStarted
        },
{
}

/// An event is decoded by the source with the requested name. It is scheduled if it
/// could be decoded, unless the request is refused beforehand.
///
/// The source is the one at the given place, and what was decoded is returned.
pub proof fn law_event_is_decoded_by_its_source<E, Q, F>(
    before: ControllerService<E, Q>,
    request: ScheduleEventRequest,
    decode: F,
    result: Result<Option<EventKey>, Error>,
    after: ControllerService<E, Q>,
    i: int,
) -> (decoded: Result<u64, CodecError>) where F: FnOnce(&E, &Vec<u8>) -> Result<u64, CodecError>
    requires
        before.wf(),
        before.started(),
        ControllerService::schedule_answered(before, request, decode, result, after),
        schedule_refusal(request, before.event_sources()) is None,
        0 <= i < before.event_sources()@.len(),
        before.event_sources()@[i].0@ == request.source_name@,
    ensures
        after.started(),
        after.event_sources() == before.event_sources() && after.query_sources()
            == before.query_sources(),
        decode.ensures((&before.event_sources()@[i].1, &request.event), decoded),
        event_decoded(
            before.sim(),
            before.keys(),
            request,
            decoded,
            true,
            result,
            after.sim(),
            after.keys(),
        ),
{
    law_each_item_is_found(before.event_sources(), i);
    choose|decoded: Result<u64, CodecError>| #[trigger]
        decode.ensures(
            (&before.event_sources().item(request.source_name@), &request.event),
            decoded,
        ) && event_decoded(
            before.sim(),
            before.keys(),
            request,
            decoded,
            true,
            result,
            after.sim(),
            after.keys(),
        )
}

/// An event to be processed immediately is decoded by the source with the requested
/// name. Neither simulation time nor scheduled actions nor keys are affected.
///
/// The source is the one at the given place, if there is one; what was decoded is
/// returned.
pub proof fn law_event_is_processed_by_its_source<E, Q, F>(
    before: ControllerService<E, Q>,
    request: ProcessEventRequest,
    decode: F,
    result: Result<(u64, Command), Error>,
    after: ControllerService<E, Q>,
    i: int,
) -> (decoded: Result<u64, CodecError>) where F: FnOnce(&E, &Vec<u8>) -> Result<u64, CodecError>
    requires
        before.wf(),
        before.started(),
        ControllerService::event_answered(before, request, decode, result, after),
    ensures
        after.started(),
        after.event_sources() == before.event_sources() && after.query_sources()
            == before.query_sources(),
        after.keys() == before.keys(),
        after.sim().now() == before.sim().now(),
        after.sim().scheduled() == before.sim().scheduled(),
        (forall|j: int|
            0 <= j < before.event_sources()@.len() ==> (#[trigger] before.event_sources()@[j]).0@
                != request.source_name@) ==> (result matches Err(e) && e.code
            == ErrorCode::SourceNotFound && after.sim() == before.sim()),
        0 <= i < before.event_sources()@.len() && before.event_sources()@[i].0@
            == request.source_name@ ==> decode.ensures(
            (&before.event_sources()@[i].1, &request.event),
            decoded,
        ) && message_processed(
            before.sim(),
            decoded,
            "the event could not be deserialized as type"@,
            true,
            result,
            after.sim(),
        ),
{
    law_items_are_found_by_name(before.event_sources(), request.source_name@);
    if 0 <= i < before.event_sources()@.len() && before.event_sources()@[i].0@
        == request.source_name@ {
        law_each_item_is_found(before.event_sources(), i);
    }
    choose|decoded: Result<u64, CodecError>| #[trigger]
        decode.ensures(
            (&before.event_sources().item(request.source_name@), &request.event),
            decoded,
        ) && message_processed(
            before.sim(),
            decoded,
            "the event could not be deserialized as type"@,
            true,
            result,
            after.sim(),
        )
}

/// A query to be processed immediately is decoded by the source with the requested
/// name. Neither simulation time nor scheduled actions nor keys are affected.
///
/// The source is the one at the given place, if there is one; what was decoded is
/// returned.
pub proof fn law_query_is_processed_by_its_source<E, Q, F>(
    before: ControllerService<E, Q>,
    request: ProcessQueryRequest,
    decode: F,
    result: Result<(u64, Command), Error>,
    after: ControllerService<E, Q>,
    i: int,
) -> (decoded: Result<u64, CodecError>) where F: FnOnce(&Q, &Vec<u8>) -> Result<u64, CodecError>
    requires
        before.wf(),
        before.started(),
        ControllerService::query_answered(before, request, decode, result, after),
    ensures
        after.started(),
        after.event_sources() == before.event_sources() && after.query_sources()
            == before.query_sources(),
        after.keys() == before.keys(),
        after.sim().now() == before.sim().now(),
        after.sim().scheduled() == before.sim().scheduled(),
        (forall|j: int|
            0 <= j < before.query_sources()@.len() ==> (#[trigger] before.query_sources()@[j]).0@
                != request.source_name@) ==> (result matches Err(e) && e.code
            == ErrorCode::SourceNotFound && after.sim() == before.sim()),
        0 <= i < before.query_sources()@.len() && before.query_sources()@[i].0@
            == request.source_name@ ==> decode.ensures(
            (&before.query_sources()@[i].1, &request.request),
            decoded,
        ) && message_processed(
            before.sim(),
            decoded,
            "the request could not be deserialized as type"@,
            true,
            result,
            after.sim(),
        ),
{
    law_items_are_found_by_name(before.query_sources(), request.source_name@);
    if 0 <= i < before.query_sources()@.len() && before.query_sources()@[i].0@
        == request.source_name@ {
        law_each_item_is_found(before.query_sources(), i);
    }
    choose|decoded: Result<u64, CodecError>| #[trigger]
        decode.ensures(
            (&before.query_sources().item(request.source_name@), &request.request),
            decoded,
        ) && message_processed(
            before.sim(),
            decoded,
            "the request could not be deserialized as type"@,
            true,
            result,
            after.sim(),
        )
}

/// The requests that a simulation is ready for.
///
/// It can be stepped until the requested time unless a relative deadline, or the next
/// occurrence of one of the next events up to the deadline, lies beyond the latest
/// instant. An event can be scheduled unless a relative deadline lies beyond the latest
/// instant or there is no room for the key that is requested. A request that is to be
/// refused anyway is accepted.
pub proof fn law_readiness(
    simulation: Simulation,
    key_registry: KeyRegistry,
    step: StepUntilRequest,
    event: ScheduleEventRequest,
    latest: int,
)
    requires
        latest == i64::MAX * 1_000_000_000 + 999_999_999,
    ensures
        ({
            let now = simulation.now()@;
            let target = match step.deadline {
                Some(Deadline::Time(timestamp)) => timestamp.seconds * 1_000_000_000
                    + timestamp.nanos,
                Some(Deadline::Duration(span)) => now + span.seconds * 1_000_000_000 + span.nanos,
                None => 0,
            };
            can_step_until(simulation, step) <==> match step.deadline {
                Some(Deadline::Time(timestamp)) => 0 <= timestamp.nanos <= 999_999_999
                    ==> simulation.can_repeat(target),
                Some(Deadline::Duration(span)) => span.seconds >= 0 && span.nanos >= 0 ==> target
                    <= latest && simulation.can_repeat(target),
                None => true,
            }
        }),
        ({
            let now = simulation.now()@;
            let bad_period = event.period matches Some(period) && (period.seconds < 0
                || period.nanos < 0 || (period.seconds == 0 && period.nanos == 0));
            can_schedule(simulation, key_registry, event) <==> (event.with_key
                ==> key_registry.has_room()) && (bad_period || match event.deadline {
                Some(Deadline::Duration(span)) => span.seconds < 0 || span.nanos < 0 || now
                    + span.seconds * 1_000_000_000 + span.nanos <= latest,
                _ => true,
            })
        }),
{
}

/// A number can be the key of a new event if and only if it is in use neither for a
/// scheduled action nor for a registered key.
pub proof fn law_unused_keys(key: u64, simulation: Simulation, key_registry: KeyRegistry)
    ensures
        is_unused(key, simulation, key_registry) <==> !(exists|i: int|
            0 <= i < simulation.scheduled().len() && (
            #[trigger] simulation.scheduled()[i]).action.key == Some(key)) && !(exists|
            id: KeyRegistryId,
        | #[trigger]
            key_registry@.dom().contains(id) && key_registry@[id].action_key == key),
{
}

/// The error returned when there is no source with some name tells the name.
pub proof fn law_source_not_found(error: Error, name: Seq<char>)
    ensures
        source_not_found(error, name) <==> error.code == ErrorCode::SourceNotFound
            && error.message@ == "no source is registered with the name"@ + " '"@ + name + "'"@,
{
}

/// A request to advance simulation time until a deadline is carried out on the simulation
/// of the service, if there is one. The sources and the keys remain the same.
pub proof fn law_step_until_request<E, Q>(
    before: ControllerService<E, Q>,
    request: StepUntilRequest,
    result: Result<Command, Error>,
    after: ControllerService<E, Q>,
)
    requires
        ControllerService::step_until_answered(before, request, result, after),
    ensures
        after.started() == before.started(),
        before.started() ==> stepped_until(before.sim(), request, result, after.sim())
            && after.event_sources() == before.event_sources() && after.query_sources()
            == before.query_sources() && after.keys() == before.keys(),
        !before.started() ==> (result matches Err(e) && e.code
            == ErrorCode::SimulationNotStarted),
{
}

/// A request to cancel an event cancels the event with the requested key in the simulation
/// of the service, if there is one. The sources remain the same.
pub proof fn law_cancel_request<E, Q>(
    before: ControllerService<E, Q>,
    request: CancelEventRequest,
    result: Result<(), Error>,
    after: ControllerService<E, Q>,
)
    requires
        ControllerService::cancel_answered(before, request, result, after),
    ensures
        after.started() == before.started(),
        before.started() ==> after.event_sources() == before.event_sources()
            && after.query_sources() == before.query_sources(),
        before.started() ==> match request.key {
            Some(key) => event_cancelled(
                before.sim(),
                before.keys(),
                key,
                result,
                after.sim(),
                after.keys(),
            ),
            None => (result matches Err(e) && e.code == ErrorCode::MissingArgument) && after.sim()
                == before.sim() && after.keys() == before.keys(),
        },
        !before.started() ==> (result matches Err(e) && e.code
            == ErrorCode::SimulationNotStarted),
{
}

/// A request to schedule an event that is refused for whatever reason gets the error that
/// tells the reason, and so does one that comes before a simulation was started.
pub proof fn law_refused_schedule_request<E, Q, F>(
    before: ControllerService<E, Q>,
    request: ScheduleEventRequest,
    decode: F,
    result: Result<Option<EventKey>, Error>,
    after: ControllerService<E, Q>,
) where F: FnOnce(&E, &Vec<u8>) -> Result<u64, CodecError>
    requires
        ControllerService::schedule_answered(before, request, decode, result, after),
    ensures
        after.started() == before.started(),
        !before.started() ==> (result matches Err(e) && e.code
            == ErrorCode::SimulationNotStarted),
        before.started() ==> (schedule_refusal(request, before.event_sources()) matches Some(
            refusal,
        ) ==> (result matches Err(e) && e.code == refusal.0 && e.message@ == refusal.1)),
{
}

/// An event that could not be decoded is not scheduled: the error tells why, and nothing
/// changes.
pub proof fn law_undecoded_event(
    before: Simulation,
    keys_before: KeyRegistry,
    request: ScheduleEventRequest,
    error: CodecError,
    detailed: bool,
    result: Result<Option<EventKey>, Error>,
    after: Simulation,
    keys_after: KeyRegistry,
)
    requires
        event_decoded(
            before,
            keys_before,
            request,
            Err(error),
            detailed,
            result,
            after,
            keys_after,
        ),
    ensures
        result matches Err(e) && e.code == ErrorCode::InvalidMessage && e.message@ == codec_text(
            "the event could not be deserialized as type"@,
            error,
            detailed,
        ),
        after == before,
        keys_after == keys_before,
{
}

} // verus!
