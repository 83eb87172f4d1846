//! Simulation management.

pub mod monitoring_service;

use vstd::prelude::*;

use super::key_registry::{KeyRegistry, KeyRegistryId, RegisteredKey};
use super::message::{
    AnyRequest, CancelEventRequest, CloseSinkRequest, CodecError, Error, ErrorCode, EventKey,
    InitRequest, OpenSinkRequest, ProcessEventRequest, ProcessQueryRequest, ReadEventsRequest,
    ScheduleEventRequest, StepRequest, StepUntilRequest, TimeRequest, Timestamp,
};
use super::protobuf::{
    check_request, invalid_request_text, is_fresh, AnyReply, Handlers, InvalidRequest,
};
use super::registry::{law_each_item_is_found, law_items_are_found_by_name, EndpointRegistry};
use super::services::controller_service::{
    can_schedule, can_step_until, cancel_keyed_event, check_schedule, check_step_until,
    draws_new_keys, event_cancelled, event_decoded, message_processed, process_decoded, schedule_decoded, schedule_refusal, source_not_found, step_until_target, stepped_until,
};
use super::services::init_service::start_time;
use super::services::{
    bad_period, check_deadline, check_period, check_target, check_target_form, codec_error,
    codec_text, execution_error_code, instant, is_strictly_positive, is_timestamp, map_execution_error, not_started, report_time,
    simulation_not_started_error, target_refusal, time_result, timestamp_to_monotonic, to_error,
    to_error_with_name,
};
use crate::simulation::error::ExecutionError;
use crate::simulation::{Command, Phase, Simulation};
use crate::time::{max_instant, MonotonicTime};
use monitoring_service::{events_read, read_events, sink_switched, switch_sink};

verus! {

/// A simulation with its sources, sinks and the keys of its events.
pub struct SimulationContext<E, Q, K> {
    /// The simulation.
    pub simulation: Simulation,
    /// The sources and sinks.
    pub endpoint_registry: EndpointRegistry<E, Q, K>,
    /// The keys of scheduled events.
    pub key_registry: KeyRegistry,
}

impl<E, Q, K> SimulationContext<E, Q, K> {
    /// The invariant of the context.
    pub open spec fn wf(self) -> bool {
        self.simulation.wf() && self.endpoint_registry.wf() && self.key_registry.wf()
    }
}

/// Simulation manager.
///
/// A `SimulationService` enables the management of the lifecycle of a
/// simulation, including creating a [`Simulation`], invoking its methods and
/// instantiating a new simulation.
///
/// Requests that need the simulation to be run are answered once the simulation
/// has gone through all [`Command`]s.
pub struct SimulationService<E, Q, K> {
    /// The active simulation, if any.
    pub sim_context: Option<SimulationContext<E, Q, K>>,
}

impl<E, Q, K> SimulationService<E, Q, K> {
    /// The invariant of the service.
    pub open spec fn wf(self) -> bool {
        self.sim_context matches Some(context) ==> context.wf()
    }

    /// Whether a simulation is active.
    pub open spec fn started(self) -> bool {
        self.sim_context is Some
    }

    /// The active simulation.
    pub open spec fn sim(self) -> Simulation {
        self.sim_context->Some_0.simulation
    }

    /// The sources and sinks of the active simulation.
    pub open spec fn endpoints(self) -> EndpointRegistry<E, Q, K> {
        self.sim_context->Some_0.endpoint_registry
    }

    /// The keys of the events of the active simulation.
    pub open spec fn keys(self) -> KeyRegistry {
        self.sim_context->Some_0.key_registry
    }

    /// Whether no request is being processed.
    pub open spec fn idle(self) -> bool {
        self.started() ==> self.sim().awaiting() is Idle
    }

    /// Creates a new `SimulationService` without any active simulation.
    pub fn new() -> (service: Self)
        ensures
            service.wf(),
            !service.started(),
    {
        SimulationService { sim_context: None }
    }

    /// What happens upon a request to start a simulation.
    pub open spec fn init_answered<S>(
        before: Self,
        request: InitRequest,
        start: S,
        result: Result<(), Error>,
        after: Self,
    ) -> bool where S: FnOnce(MonotonicTime) -> (Simulation, EndpointRegistry<E, Q, K>) {
        if is_timestamp(start_time(request)) {
            exists|time: MonotonicTime, bench: (Simulation, EndpointRegistry<E, Q, K>)| #[trigger]
                start.ensures((time,), bench) && {
                    &&& time@ == instant(start_time(request))
                    &&& result is Ok
                    &&& after.started()
                    &&& after.sim() == bench.0
                    &&& after.endpoints() == bench.1
                    &&& after.keys()@ == Map::<KeyRegistryId, RegisteredKey>::empty()
                }
        } else {
            &&& result is Err
            &&& result->Err_0.says(ErrorCode::InvalidTime, "out-of-range nanosecond field"@)
            &&& after == before
        }
    }

    /// Initializes a simulation with the provided time.
    ///
    /// If a simulation is already active, it is destructed and replaced with a
    /// new simulation, which is created by the provided function.
    ///
    /// If the initialization time is not provided, it is initialized with the
    /// epoch of [`MonotonicTime`] (1970-01-01 00:00:00 TAI).
    pub fn init<S>(&mut self, request: InitRequest, start: S) -> (result: Result<
        (),
        Error,
    >) where S: FnOnce(MonotonicTime) -> (Simulation, EndpointRegistry<E, Q, K>)
        requires
            old(self).wf(),
            forall|time: MonotonicTime| start.requires((time,)),
            forall|time: MonotonicTime, bench: (Simulation, EndpointRegistry<E, Q, K>)| #[trigger]
                start.ensures((time,), bench) ==> is_fresh(bench),
        ensures
            final(self).wf(),
            Self::init_answered(*old(self), request, start, result, *final(self)),
    {
        let time = match request.time {
            Some(time) => time,
            None => Timestamp { seconds: 0, nanos: 0 },
        };
        match timestamp_to_monotonic(time) {
            Some(time) => {
                let bench = start(time);
                let ghost started = bench;
                assert(is_fresh(started));
                let (simulation, endpoint_registry) = bench;
                self.sim_context = Some(
                    SimulationContext {
                        simulation,
                        endpoint_registry,
                        key_registry: KeyRegistry::new(),
                    },
                );
                Ok(())
            },
            None => Err(to_error(ErrorCode::InvalidTime, "out-of-range nanosecond field")),
        }
    }

    /// Returns the current simulation time.
    pub fn time(&self, _request: TimeRequest) -> (result: Result<Timestamp, Error>)
        ensures
            if self.started() {
                time_result(self.sim().now(), result)
            } else {
                result is Err && not_started(result->Err_0)
            },
    {
        match &self.sim_context {
            Some(context) => report_time(context.simulation.time()),
            None => Err(simulation_not_started_error()),
        }
    }

    /// What happens upon a request to advance simulation time.
    pub open spec fn step_answered(
        before: Self,
        result: Result<Command, Error>,
        after: Self,
    ) -> bool {
        if before.started() {
            &&& after.started()
            &&& after.endpoints() == before.endpoints()
            &&& after.keys() == before.keys()
            &&& match result {
                Ok(command) => {
                    &&& !before.sim().terminated()
                    &&& Simulation::stepped(before.sim(), None, command, after.sim())
                },
                Err(e) => {
                    &&& before.sim().terminated()
                    &&& e.says(ErrorCode::SimulationTerminated, ExecutionError::Terminated.text())
                    &&& after.sim() == before.sim()
                },
            }
        } else {
            &&& result is Err
            &&& not_started(result->Err_0)
            &&& !after.started()
        }
    }

    /// Advances simulation time to that of the next scheduled event, processing
    /// that event as well as all other event scheduled for the same time.
    pub fn step(&mut self, _request: StepRequest) -> (result: Result<Command, Error>)
        requires
            old(self).wf(),
            old(self).idle(),
            old(self).started() ==> old(self).sim().can_repeat(max_instant()),
        ensures
            final(self).wf(),
            Self::step_answered(*old(self), result, *final(self)),
    {
        match &mut self.sim_context {
            Some(context) => match context.simulation.step() {
                Ok(command) => Ok(command),
                Err(e) => Err(map_execution_error(e)),
            },
            None => Err(simulation_not_started_error()),
        }
    }

    /// Answers a request to advance simulation time, once it was completed or
    /// has failed.
    pub fn step_reply(&self, outcome: Result<(), ExecutionError>) -> (result: Result<
        Timestamp,
        Error,
    >)
        ensures
            if self.started() {
                match outcome {
                    Ok(_) => time_result(self.sim().now(), result),
                    Err(e) => result is Err && result->Err_0.says(
                        execution_error_code(e),
                        e.text(),
                    ),
                }
            } else {
                result is Err && not_started(result->Err_0)
            },
    {
        match &self.sim_context {
            Some(context) => match outcome {
                Ok(_) => report_time(context.simulation.time()),
                Err(e) => Err(map_execution_error(e)),
            },
            None => Err(simulation_not_started_error()),
        }
    }

    /// What happens upon a request to advance simulation time until a deadline.
    pub open spec fn step_until_answered(
        before: Self,
        request: StepUntilRequest,
        result: Result<Command, Error>,
        after: Self,
    ) -> bool {
        if before.started() {
            &&& after.started()
            &&& after.endpoints() == before.endpoints()
            &&& after.keys() == before.keys()
            &&& stepped_until(before.sim(), request, result, after.sim())
        } else {
            &&& !after.started()
            &&& result is Err
            &&& match target_refusal(request.deadline) {
                Some(refusal) => result->Err_0.says(refusal.0, refusal.1),
                None => not_started(result->Err_0),
            }
        }
    }

    /// Iteratively advances the simulation time until the specified deadline,
    /// as if by calling [`Simulation::step()`] repeatedly.
    ///
    /// The simulation time upon completion is equal to the specified target
    /// time, whether or not an event was scheduled for that time.
    pub fn step_until(&mut self, request: StepUntilRequest) -> (result: Result<Command, Error>)
        requires
            old(self).wf(),
            old(self).idle(),
            old(self).started() ==> can_step_until(old(self).sim(), request),
        ensures
            final(self).wf(),
            Self::step_until_answered(*old(self), request, result, *final(self)),
    {
        if let Err(e) = check_target_form(&request.deadline) {
            return Err(e);
        }
        match &mut self.sim_context {
            Some(context) => {
                let time = match check_target(request.deadline, &context.simulation.time()) {
                    Ok(time) => time,
                    Err(e) => return Err(e),
                };
                proof {
                    time.lemma_at_own_instant();
                }
                step_until_target(&mut context.simulation, time)
            },
            None => Err(simulation_not_started_error()),
        }
    }

    /// What happens upon a request to schedule an event.
    pub open spec fn schedule_answered<F>(
        before: Self,
        request: ScheduleEventRequest,
        decode: F,
        result: Result<Option<EventKey>, Error>,
        after: Self,
    ) -> bool where F: FnOnce(&E, &Vec<u8>) -> Result<u64, CodecError> {
        if before.started() {
            let sources = before.endpoints().event_source_registry;
            &&& after.started()
            &&& after.endpoints() == before.endpoints()
            &&& match schedule_refusal(request, sources) {
                Some(refusal) => {
                    &&& result is Err
                    &&& result->Err_0.says(refusal.0, refusal.1)
                    &&& after.sim() == before.sim()
                    &&& after.keys() == before.keys()
                },
                None => exists|decoded: Result<u64, CodecError>| #[trigger]
                    decode.ensures(
                        (&sources.item(request.source_name@), &request.event),
                        decoded,
                    ) && event_decoded(
                        before.sim(),
                        before.keys(),
                        request,
                        decoded,
                        false,
                        result,
                        after.sim(),
                        after.keys(),
                    ),
            }
        } else {
            &&& !after.started()
            &&& result is Err
            &&& if request.period is Some && !is_strictly_positive(request.period->Some_0) {
                bad_period(result->Err_0)
            } else {
                not_started(result->Err_0)
            }
        }
    }

    /// Schedules an event at a future time.
    ///
    /// The argument of the decoding function is the event source and the
    /// serialized event; it returns a number that designates the event.
    pub fn schedule_event<F>(&mut self, request: ScheduleEventRequest, decode: F) -> (result:
        Result<Option<EventKey>, Error>) where
        F: FnOnce(&E, &Vec<u8>) -> Result<u64, CodecError>,

        requires
            old(self).wf(),
            old(self).started() ==> can_schedule(old(self).sim(), old(self).keys(), request)
                && draws_new_keys::<E, F>(old(self).sim(), old(self).keys(), request, decode),
            forall|source: &E, event: &Vec<u8>| decode.requires((source, event)),
        ensures
            final(self).wf(),
            Self::schedule_answered(*old(self), request, decode, result, *final(self)),
    {
        let period = match check_period(request.period) {
            Ok(period) => period,
            Err(e) => return Err(e),
        };
        match &mut self.sim_context {
            Some(context) => {
                let time = match check_deadline(request.deadline, &context.simulation.time()) {
                    Ok(time) => time,
                    Err(e) => return Err(e),
                };
                let sources = &context.endpoint_registry.event_source_registry;
                let source = match sources.get(request.source_name.as_str()) {
                    Some(source) => source,
                    None => return Err(
                        to_error_with_name(
                            ErrorCode::SourceNotFound,
                            "no event source is registered with the name",
                            request.source_name.as_str(),
                        ),
                    ),
                };
                let decoded = decode(source, &request.event);
                schedule_decoded(
                    &mut context.simulation,
                    &mut context.key_registry,
                    &request,
                    period,
                    time,
                    decoded,
                    false,
                )
            },
            None => Err(simulation_not_started_error()),
        }
    }

    /// What happens upon a request to cancel an event.
    pub open spec fn cancel_answered(
        before: Self,
        request: CancelEventRequest,
        result: Result<(), Error>,
        after: Self,
    ) -> bool {
        match request.key {
            None => {
                &&& result is Err
                &&& result->Err_0.says(ErrorCode::MissingArgument, "missing key argument"@)
                &&& after == before
            },
            Some(key) => if before.started() {
                &&& after.started()
                &&& after.endpoints() == before.endpoints()
                &&& event_cancelled(
                    before.sim(),
                    before.keys(),
                    key,
                    result,
                    after.sim(),
                    after.keys(),
                )
            } else {
                &&& !after.started()
                &&& result is Err
                &&& if key.subkey1 > usize::MAX {
                    result->Err_0.says(ErrorCode::InvalidKey, "invalid event key"@)
                } else {
                    not_started(result->Err_0)
                }
            },
        }
    }

    /// Cancels a keyed event.
    pub fn cancel_event(&mut self, request: CancelEventRequest) -> (result: Result<(), Error>)
        requires
            old(self).wf(),
        ensures
            final(self).wf(),
            Self::cancel_answered(*old(self), request, result, *final(self)),
    {
        let key = match request.key {
            Some(key) => key,
            None => return Err(to_error(ErrorCode::MissingArgument, "missing key argument")),
        };
        if key.subkey1 > usize::MAX as u64 {
            return Err(to_error(ErrorCode::InvalidKey, "invalid event key"));
        }
        match &mut self.sim_context {
            Some(context) => cancel_keyed_event(
                &mut context.simulation,
                &mut context.key_registry,
                key,
            ),
            None => Err(simulation_not_started_error()),
        }
    }

    /// What happens upon a request to process an event.
    pub open spec fn event_answered<F>(
        before: Self,
        request: ProcessEventRequest,
        decode: F,
        result: Result<(u64, Command), Error>,
        after: Self,
    ) -> bool where F: FnOnce(&E, &Vec<u8>) -> Result<u64, CodecError> {
        if before.started() {
            let sources = before.endpoints().event_source_registry;
            &&& after.started()
            &&& after.endpoints() == before.endpoints()
            &&& after.keys() == before.keys()
            &&& if sources.has(request.source_name@) {
                exists|decoded: Result<u64, CodecError>| #[trigger]
                    decode.ensures(
                        (&sources.item(request.source_name@), &request.event),
                        decoded,
                    ) && message_processed(
                        before.sim(),
                        decoded,
                        "the event could not be deserialized as type"@,
                        false,
                        result,
                        after.sim(),
                    )
            } else {
                &&& result is Err
                &&& source_not_found(result->Err_0, request.source_name@)
                &&& after.sim() == before.sim()
            }
        } else {
            &&& result is Err
            &&& not_started(result->Err_0)
            &&& !after.started()
        }
    }

    /// Broadcasts an event from an event source immediately.
    ///
    /// The argument of the decoding function is the event source and the
    /// serialized event; it returns a number that designates the event. The
    /// event must be spawned on the executor before the command is executed.
    /// Simulation time remains unchanged.
    pub fn process_event<F>(&mut self, request: ProcessEventRequest, decode: F) -> (result: Result<
        (u64, Command),
        Error,
    >) where F: FnOnce(&E, &Vec<u8>) -> Result<u64, CodecError>
        requires
            old(self).wf(),
            old(self).idle(),
            forall|source: &E, event: &Vec<u8>| decode.requires((source, event)),
        ensures
            final(self).wf(),
            Self::event_answered(*old(self), request, decode, result, *final(self)),
    {
        match &mut self.sim_context {
            Some(context) => {
                let sources = &context.endpoint_registry.event_source_registry;
                let source = match sources.get(request.source_name.as_str()) {
                    Some(source) => source,
                    None => return Err(
                        to_error_with_name(
                            ErrorCode::SourceNotFound,
                            "no source is registered with the name",
                            request.source_name.as_str(),
                        ),
                    ),
                };
                let decoded = decode(source, &request.event);
                process_decoded(
                    &mut context.simulation,
                    decoded,
                    "the event could not be deserialized as type",
                    false,
                )
            },
            None => Err(simulation_not_started_error()),
        }
    }

    /// What happens upon a request to process a query.
    pub open spec fn query_answered<F>(
        before: Self,
        request: ProcessQueryRequest,
        decode: F,
        result: Result<(u64, Command), Error>,
        after: Self,
    ) -> bool where F: FnOnce(&Q, &Vec<u8>) -> Result<u64, CodecError> {
        if before.started() {
            let sources = before.endpoints().query_source_registry;
            &&& after.started()
            &&& after.endpoints() == before.endpoints()
            &&& after.keys() == before.keys()
            &&& if sources.has(request.source_name@) {
                exists|decoded: Result<u64, CodecError>| #[trigger]
                    decode.ensures(
                        (&sources.item(request.source_name@), &request.request),
                        decoded,
                    ) && message_processed(
                        before.sim(),
                        decoded,
                        "the request could not be deserialized as type"@,
                        false,
                        result,
                        after.sim(),
                    )
            } else {
                &&& result is Err
                &&& source_not_found(result->Err_0, request.source_name@)
                &&& after.sim() == before.sim()
            }
        } else {
            &&& result is Err
            &&& not_started(result->Err_0)
            &&& !after.started()
        }
    }

    /// Broadcasts a query from a query source immediately.
    ///
    /// The argument of the decoding function is the query source and the
    /// serialized query; it returns a number that designates the query. The
    /// query must be spawned on the executor before the command is executed.
    /// Simulation time remains unchanged.
    pub fn process_query<F>(&mut self, request: ProcessQueryRequest, decode: F) -> (result: Result<
        (u64, Command),
        Error,
    >) where F: FnOnce(&Q, &Vec<u8>) -> Result<u64, CodecError>
        requires
            old(self).wf(),
            old(self).idle(),
            forall|source: &Q, query: &Vec<u8>| decode.requires((source, query)),
        ensures
            final(self).wf(),
            Self::query_answered(*old(self), request, decode, result, *final(self)),
    {
        match &mut self.sim_context {
            Some(context) => {
                let sources = &context.endpoint_registry.query_source_registry;
                let source = match sources.get(request.source_name.as_str()) {
                    Some(source) => source,
                    None => return Err(
                        to_error_with_name(
                            ErrorCode::SourceNotFound,
                            "no source is registered with the name",
                            request.source_name.as_str(),
                        ),
                    ),
                };
                let decoded = decode(source, &request.request);
                process_decoded(
                    &mut context.simulation,
                    decoded,
                    "the request could not be deserialized as type",
                    false,
                )
            },
            None => Err(simulation_not_started_error()),
        }
    }

    /// Answers a request to process an event, once it was completed or has
    /// failed.
    pub fn process_event_reply(&self, outcome: Result<(), ExecutionError>) -> (result: Result<
        (),
        Error,
    >)
        ensures
            match outcome {
                Ok(_) => result is Ok,
                Err(e) => result is Err && result->Err_0.says(execution_error_code(e), e.text()),
            },
    {
        match outcome {
            Ok(_) => Ok(()),
            Err(e) => Err(map_execution_error(e)),
        }
    }

    /// Answers a request to process a query, once it was completed or has
    /// failed.
    ///
    /// The serialized replies are provided if there are any.
    pub fn process_query_reply(
        &self,
        outcome: Result<(), ExecutionError>,
        replies: Option<Result<Vec<Vec<u8>>, CodecError>>,
    ) -> (result: Result<Vec<Vec<u8>>, Error>)
        ensures
            match (outcome, replies) {
                (Err(e), _) => result is Err && result->Err_0.says(
                    execution_error_code(e),
                    e.text(),
                ),
                (Ok(_), None) => result is Err && result->Err_0.says(
                    ErrorCode::InternalError,
                    "a reply to the query was expected but none was available"@,
                ),
                (Ok(_), Some(Err(e))) => result is Err && result->Err_0.says(
                    ErrorCode::InvalidMessage,
                    codec_text("the reply could not be serialized as type"@, e, false),
                ),
                (Ok(_), Some(Ok(replies))) => result == Ok::<Vec<Vec<u8>>, Error>(replies),
            },
    {
        if let Err(e) = outcome {
            return Err(map_execution_error(e));
        }
        match replies {
            None => Err(
                to_error(
                    ErrorCode::InternalError,
                    "a reply to the query was expected but none was available",
                ),
            ),
            Some(Ok(replies)) => Ok(replies),
            Some(Err(e)) => Err(codec_error("the reply could not be serialized as type", &e, false)),
        }
    }

    /// What happens upon a request to read events.
    pub open spec fn read_answered<F>(
        self,
        request: ReadEventsRequest,
        collect: F,
        result: Result<Vec<Vec<u8>>, Error>,
    ) -> bool where F: FnOnce(&K) -> Result<Vec<Vec<u8>>, CodecError> {
        if self.started() {
            events_read(self.endpoints().event_sink_registry, request, collect, result)
        } else {
            result is Err && not_started(result->Err_0)
        }
    }

    /// Reads all events from an event sink.
    ///
    /// The provided function takes all events from a sink and serializes them.
    pub fn read_events<F>(&self, request: ReadEventsRequest, collect: F) -> (result: Result<
        Vec<Vec<u8>>,
        Error,
    >) where F: FnOnce(&K) -> Result<Vec<Vec<u8>>, CodecError>
        requires
            forall|sink: &K| collect.requires((sink,)),
        ensures
            self.read_answered(request, collect, result),
    {
        match &self.sim_context {
            Some(context) => read_events(
                &context.endpoint_registry.event_sink_registry,
                request,
                collect,
            ),
            None => Err(simulation_not_started_error()),
        }
    }

    /// What happens upon a request to open or close a sink with the given
    /// function.
    pub open spec fn switch_answered<F>(
        self,
        name: Seq<char>,
        switch: F,
        result: Result<(), Error>,
    ) -> bool where F: FnOnce(&K) -> () {
        if self.started() {
            sink_switched(self.endpoints().event_sink_registry, name, switch, result)
        } else {
            result is Err && not_started(result->Err_0)
        }
    }

    /// Opens an event sink with the provided function.
    pub fn open_sink<F>(&self, request: OpenSinkRequest, open: F) -> (result: Result<
        (),
        Error,
    >) where F: FnOnce(&K) -> ()
        requires
            forall|sink: &K| open.requires((sink,)),
        ensures
            self.switch_answered(request.sink_name@, open, result),
    {
        match &self.sim_context {
            Some(context) => switch_sink(
                &context.endpoint_registry.event_sink_registry,
                request.sink_name.as_str(),
                open,
            ),
            None => Err(simulation_not_started_error()),
        }
    }

    /// Closes an event sink with the provided function.
    pub fn close_sink<F>(&self, request: CloseSinkRequest, close: F) -> (result: Result<
        (),
        Error,
    >) where F: FnOnce(&K) -> ()
        requires
            forall|sink: &K| close.requires((sink,)),
        ensures
            self.switch_answered(request.sink_name@, close, result),
    {
        match &self.sim_context {
            Some(context) => switch_sink(
                &context.endpoint_registry.event_sink_registry,
                request.sink_name.as_str(),
                close,
            ),
            None => Err(simulation_not_started_error()),
        }
    }

    /// Whether the service is ready to process a request.
    pub open spec fn ready(self, request: AnyRequest) -> bool {
        match request {
            AnyRequest::StepRequest(_) => {
                &&& self.idle()
                &&& self.started() ==> self.sim().can_repeat(max_instant())
            },
            AnyRequest::StepUntilRequest(request) => {
                &&& self.idle()
                &&& self.started() ==> can_step_until(self.sim(), request)
            },
            AnyRequest::ScheduleEventRequest(request) => self.started() ==> can_schedule(
                self.sim(),
                self.keys(),
                request,
            ),
            AnyRequest::ProcessEventRequest(_) => self.idle(),
            AnyRequest::ProcessQueryRequest(_) => self.idle(),
            _ => true,
        }
    }

    /// Checks if the service is ready to process a request.
    pub fn is_ready(&self, request: &AnyRequest) -> (r: bool)
        requires
            self.wf(),
        ensures
            r == self.ready(*request),
    {
        match &self.sim_context {
            None => true,
            Some(context) => {
                let simulation = &context.simulation;
                let idle = matches!(simulation.phase(), Phase::Idle);
                match request {
                    AnyRequest::StepRequest(_) => idle && simulation.is_repeatable(
                        &MonotonicTime::max(),
                    ),
                    AnyRequest::StepUntilRequest(request) => idle && check_step_until(
                        simulation,
                        request,
                    ),
                    AnyRequest::ScheduleEventRequest(request) => check_schedule(
                        simulation,
                        &context.key_registry,
                        request,
                    ),
                    AnyRequest::ProcessEventRequest(_) | AnyRequest::ProcessQueryRequest(_) => idle,
                    _ => true,
                }
            },
        }
    }

    /// What happens upon a request.
    pub open spec fn answered<DE, DQ, C, O, L, S>(
        before: Self,
        request: AnyRequest,
        handlers: Handlers<DE, DQ, C, O, L, (), S>,
        reply: AnyReply,
        after: Self,
    ) -> bool where
        DE: FnOnce(&E, &Vec<u8>) -> Result<u64, CodecError>,
        DQ: FnOnce(&Q, &Vec<u8>) -> Result<u64, CodecError>,
        C: FnOnce(&K) -> Result<Vec<Vec<u8>>, CodecError>,
        O: FnOnce(&K) -> (),
        L: FnOnce(&K) -> (),
        S: FnOnce(MonotonicTime) -> (Simulation, EndpointRegistry<E, Q, K>),
     {
        match (request, reply) {
            (AnyRequest::InitRequest(request), AnyReply::Init(result)) => Self::init_answered(
                before,
                request,
                handlers.start,
                result,
                after,
            ),
            (AnyRequest::TimeRequest(_), AnyReply::Time(result)) => {
                &&& after == before
                &&& if before.started() {
                    time_result(before.sim().now(), result)
                } else {
                    result is Err && not_started(result->Err_0)
                }
            },
            (AnyRequest::StepRequest(_), AnyReply::Step(result)) => Self::step_answered(
                before,
                result,
                after,
            ),
            (
                AnyRequest::StepUntilRequest(request),
                AnyReply::StepUntil(result),
            ) => Self::step_until_answered(before, request, result, after),
            (
                AnyRequest::ScheduleEventRequest(request),
                AnyReply::ScheduleEvent(result),
            ) => Self::schedule_answered(before, request, handlers.decode_event, result, after),
            (
                AnyRequest::CancelEventRequest(request),
                AnyReply::CancelEvent(result),
            ) => Self::cancel_answered(before, request, result, after),
            (
                AnyRequest::ProcessEventRequest(request),
                AnyReply::ProcessEvent(result),
            ) => Self::event_answered(before, request, handlers.decode_event, result, after),
            (
                AnyRequest::ProcessQueryRequest(request),
                AnyReply::ProcessQuery(result),
            ) => Self::query_answered(before, request, handlers.decode_query, result, after),
            (AnyRequest::ReadEventsRequest(request), AnyReply::ReadEvents(result)) => {
                &&& after == before
                &&& before.read_answered(request, handlers.collect, result)
            },
            (AnyRequest::OpenSinkRequest(request), AnyReply::OpenSink(result)) => {
                &&& after == before
                &&& before.switch_answered(request.sink_name@, handlers.open, result)
            },
            (AnyRequest::CloseSinkRequest(request), AnyReply::CloseSink(result)) => {
                &&& after == before
                &&& before.switch_answered(request.sink_name@, handlers.close, result)
            },
            _ => false,
        }
    }

    /// Processes a message that was decoded, unless it was not possible.
    pub fn process_request<DE, DQ, C, O, L, S>(
        &mut self,
        decoded: Result<Option<AnyRequest>, String>,
        handlers: Handlers<DE, DQ, C, O, L, (), S>,
    ) -> (result: Result<AnyReply, InvalidRequest>) where
        DE: FnOnce(&E, &Vec<u8>) -> Result<u64, CodecError>,
        DQ: FnOnce(&Q, &Vec<u8>) -> Result<u64, CodecError>,
        C: FnOnce(&K) -> Result<Vec<Vec<u8>>, CodecError>,
        O: FnOnce(&K) -> (),
        L: FnOnce(&K) -> (),
        S: FnOnce(MonotonicTime) -> (Simulation, EndpointRegistry<E, Q, K>),

        requires
            old(self).wf(),
            decoded matches Ok(Some(request)) ==> old(self).ready(request),
            old(self).started() ==> (decoded matches Ok(
                Some(AnyRequest::ScheduleEventRequest(request)),
            ) ==> draws_new_keys::<E, DE>(
                old(self).sim(),
                old(self).keys(),
                request,
                handlers.decode_event,
            )),
            forall|source: &E, event: &Vec<u8>| handlers.decode_event.requires((source, event)),
            forall|source: &Q, query: &Vec<u8>| handlers.decode_query.requires((source, query)),
            forall|sink: &K| handlers.collect.requires((sink,)),
            forall|sink: &K| handlers.open.requires((sink,)),
            forall|sink: &K| handlers.close.requires((sink,)),
            forall|time: MonotonicTime| handlers.start.requires((time,)),
            forall|time: MonotonicTime, bench: (Simulation, EndpointRegistry<E, Q, K>)| #[trigger]
                handlers.start.ensures((time,), bench) ==> is_fresh(bench),
        ensures
            final(self).wf(),
            match (decoded, result) {
                (Ok(Some(request)), Ok(reply)) => Self::answered(
                    *old(self),
                    request,
                    handlers,
                    reply,
                    *final(self),
                ),
                (Ok(Some(_)), Err(_)) => false,
                (_, result) => {
                    &&& result is Err
                    &&& result->Err_0.text() == invalid_request_text(decoded)
                    &&& *final(self) == *old(self)
                },
            },
    {
        let request = match check_request(decoded) {
            Ok(request) => request,
            Err(e) => return Err(e),
        };
        Ok(
            match request {
                AnyRequest::InitRequest(request) => AnyReply::Init(
                    self.init(request, handlers.start),
                ),
                AnyRequest::TimeRequest(request) => AnyReply::Time(self.time(request)),
                AnyRequest::StepRequest(request) => AnyReply::Step(self.step(request)),
                AnyRequest::StepUntilRequest(request) => AnyReply::StepUntil(
                    self.step_until(request),
                ),
                AnyRequest::ScheduleEventRequest(request) => AnyReply::ScheduleEvent(
                    self.schedule_event(request, handlers.decode_event),
                ),
                AnyRequest::CancelEventRequest(request) => AnyReply::CancelEvent(
                    self.cancel_event(request),
                ),
                AnyRequest::ProcessEventRequest(request) => AnyReply::ProcessEvent(
                    self.process_event(request, handlers.decode_event),
                ),
                AnyRequest::ProcessQueryRequest(request) => AnyReply::ProcessQuery(
                    self.process_query(request, handlers.decode_query),
                ),
                AnyRequest::ReadEventsRequest(request) => AnyReply::ReadEvents(
                    self.read_events(request, handlers.collect),
                ),
                AnyRequest::OpenSinkRequest(request) => AnyReply::OpenSink(
                    self.open_sink(request, handlers.open),
                ),
                AnyRequest::CloseSinkRequest(request) => AnyReply::CloseSink(
                    self.close_sink(request, handlers.close),
                ),
            },
        )
    }
}

/// A step is refused if and only if there is no simulation or if it is terminated.
/// The sources and the keys remain the same.
pub proof fn law_step_request<E, Q, K>(
    before: SimulationService<E, Q, K>,
    result: Result<Command, Error>,
    after: SimulationService<E, Q, K>,
)
    requires
        SimulationService::step_answered(before, result, after),
    ensures
        result is Ok <==> before.started() && !before.sim().terminated(),
        after.started() == before.started(),
        before.started() ==> after.endpoints() == before.endpoints() && after.keys() == before.keys(),
        result matches Ok(command) ==> Simulation::step_result(
            before.sim(),
            Ok(command),
            after.sim(),
        ),
        result is Err && before.started() ==> after.sim() == before.sim(),
        result matches Err(e) ==> e.code == if before.started() {
            ErrorCode::SimulationTerminated
        } else {
            ErrorCode::SimulationNotStarted
        },
{
}

/// An event is decoded by the source with the requested name. It is scheduled if it
/// could be decoded, unless the request is refused beforehand.
///
/// The source is the one at the given place, and what was decoded is returned.
pub proof fn law_event_is_decoded_by_its_source<E, Q, K, F>(
    before: SimulationService<E, Q, K>,
    request: ScheduleEventRequest,
    decode: F,
    result: Result<Option<EventKey>, Error>,
    after: SimulationService<E, Q, K>,
    i: int,
) -> (decoded: Result<u64, CodecError>) where F: FnOnce(&E, &Vec<u8>) -> Result<u64, CodecError>
    requires
        before.wf(),
        before.started(),
        SimulationService::schedule_answered(before, request, decode, result, after),
        schedule_refusal(request, before.endpoints().event_source_registry) is None,
        0 <= i < before.endpoints().event_source_registry@.len(),
        before.endpoints().event_source_registry@[i].0@ == request.source_name@,
    ensures
        after.started(),
        after.endpoints() == before.endpoints(),
        decode.ensures((&before.endpoints().event_source_registry@[i].1, &request.event), decoded),
        event_decoded(
            before.sim(),
            before.keys(),
            request,
            decoded,
            false,
            result,
            after.sim(),
            after.keys(),
        ),
{
    law_each_item_is_found(before.endpoints().event_source_registry, i);
    choose|decoded: Result<u64, CodecError>| #[trigger]
        decode.ensures(
            (&before.endpoints().event_source_registry.item(request.source_name@), &request.event),
            decoded,
        ) && event_decoded(
            before.sim(),
            before.keys(),
            request,
            decoded,
            false,
            result,
            after.sim(),
            after.keys(),
        )
}

/// An event to be processed immediately is decoded by the source with the requested
/// name. Neither simulation time nor scheduled actions nor keys are affected.
///
/// The source is the one at the given place, if there is one; what was decoded is
/// returned.
pub proof fn law_event_is_processed_by_its_source<E, Q, K, F>(
    before: SimulationService<E, Q, K>,
    request: ProcessEventRequest,
    decode: F,
    result: Result<(u64, Command), Error>,
    after: SimulationService<E, Q, K>,
    i: int,
) -> (decoded: Result<u64, CodecError>) where F: FnOnce(&E, &Vec<u8>) -> Result<u64, CodecError>
    requires
        before.wf(),
        before.started(),
        SimulationService::event_answered(before, request, decode, result, after),
    ensures
        after.started(),
        after.endpoints() == before.endpoints(),
        after.keys() == before.keys(),
        after.sim().now() == before.sim().now(),
        after.sim().scheduled() == before.sim().scheduled(),
        (forall|j: int|
            0 <= j < before.endpoints().event_source_registry@.len() ==> (#[trigger] before.endpoints().event_source_registry@[j]).0@
                != request.source_name@) ==> (result matches Err(e) && e.code
            == ErrorCode::SourceNotFound && after.sim() == before.sim()),
        0 <= i < before.endpoints().event_source_registry@.len() && before.endpoints().event_source_registry@[i].0@
            == request.source_name@ ==> decode.ensures(
            (&before.endpoints().event_source_registry@[i].1, &request.event),
            decoded,
        ) && message_processed(
            before.sim(),
            decoded,
            "the event could not be deserialized as type"@,
            false,
            result,
            after.sim(),
        ),
{
    law_items_are_found_by_name(before.endpoints().event_source_registry, request.source_name@);
    if 0 <= i < before.endpoints().event_source_registry@.len() && before.endpoints().event_source_registry@[i].0@
        == request.source_name@ {
        law_each_item_is_found(before.endpoints().event_source_registry, i);
    }
    choose|decoded: Result<u64, CodecError>| #[trigger]
        decode.ensures(
            (&before.endpoints().event_source_registry.item(request.source_name@), &request.event),
            decoded,
        ) && message_processed(
            before.sim(),
            decoded,
            "the event could not be deserialized as type"@,
            false,
            result,
            after.sim(),
        )
}

/// A query to be processed immediately is decoded by the source with the requested
/// name. Neither simulation time nor scheduled actions nor keys are affected.
///
/// The source is the one at the given place, if there is one; what was decoded is
/// returned.
pub proof fn law_query_is_processed_by_its_source<E, Q, K, F>(
    before: SimulationService<E, Q, K>,
    request: ProcessQueryRequest,
    decode: F,
    result: Result<(u64, Command), Error>,
    after: SimulationService<E, Q, K>,
    i: int,
) -> (decoded: Result<u64, CodecError>) where F: FnOnce(&Q, &Vec<u8>) -> Result<u64, CodecError>
    requires
        before.wf(),
        before.started(),
        SimulationService::query_answered(before, request, decode, result, after),
    ensures
        after.started(),
        after.endpoints() == before.endpoints(),
        after.keys() == before.keys(),
        after.sim().now() == before.sim().now(),
        after.sim().scheduled() == before.sim().scheduled(),
        (forall|j: int|
            0 <= j < before.endpoints().query_source_registry@.len() ==> (#[trigger] before.endpoints().query_source_registry@[j]).0@
                != request.source_name@) ==> (result matches Err(e) && e.code
            == ErrorCode::SourceNotFound && after.sim() == before.sim()),
        0 <= i < before.endpoints().query_source_registry@.len() && before.endpoints().query_source_registry@[i].0@
            == request.source_name@ ==> decode.ensures(
            (&before.endpoints().query_source_registry@[i].1, &request.request),
            decoded,
        ) && message_processed(
            before.sim(),
            decoded,
            "the request could not be deserialized as type"@,
            false,
            result,
            after.sim(),
        ),
{
    law_items_are_found_by_name(before.endpoints().query_source_registry, request.source_name@);
    if 0 <= i < before.endpoints().query_source_registry@.len() && before.endpoints().query_source_registry@[i].0@
        == request.source_name@ {
        law_each_item_is_found(before.endpoints().query_source_registry, i);
    }
    choose|decoded: Result<u64, CodecError>| #[trigger]
        decode.ensures(
            (&before.endpoints().query_source_registry.item(request.source_name@), &request.request),
            decoded,
        ) && message_processed(
            before.sim(),
            decoded,
            "the request could not be deserialized as type"@,
            false,
            result,
            after.sim(),
        )
}

/// Until a simulation is started, any request other than one to start a simulation is
/// refused.
pub proof fn law_requests_need_a_simulation<E, Q, K, DE, DQ, C, O, L, S>(
    before: SimulationService<E, Q, K>,
    request: AnyRequest,
    handlers: Handlers<DE, DQ, C, O, L, (), S>,
    reply: AnyReply,
    after: SimulationService<E, Q, K>,
) where
    DE: FnOnce(&E, &Vec<u8>) -> Result<u64, CodecError>,
    DQ: FnOnce(&Q, &Vec<u8>) -> Result<u64, CodecError>,
    C: FnOnce(&K) -> Result<Vec<Vec<u8>>, CodecError>,
    O: FnOnce(&K) -> (),
    L: FnOnce(&K) -> (),
    S: FnOnce(MonotonicTime) -> (Simulation, EndpointRegistry<E, Q, K>),

    requires
        !before.started(),
        SimulationService::answered(before, request, handlers, reply, after),
    ensures
        !(request is InitRequest) ==> !after.started(),
        match (request, reply) {
            (AnyRequest::InitRequest(_), AnyReply::Init(_)) => true,
            (AnyRequest::TimeRequest(_), AnyReply::Time(Err(e))) => e.code
                == ErrorCode::SimulationNotStarted,
            (AnyRequest::StepRequest(_), AnyReply::Step(Err(e))) => e.code
                == ErrorCode::SimulationNotStarted,
            (AnyRequest::StepUntilRequest(_), AnyReply::StepUntil(Err(e))) => e.code
                == ErrorCode::SimulationNotStarted || request->StepUntilRequest_0.deadline is None
                || e.code == ErrorCode::InvalidTime || e.code == ErrorCode::InvalidDuration,
            (AnyRequest::ScheduleEventRequest(_), AnyReply::ScheduleEvent(Err(e))) => e.code
                == ErrorCode::SimulationNotStarted || e.code == ErrorCode::InvalidDuration,
            (AnyRequest::CancelEventRequest(_), AnyReply::CancelEvent(Err(e))) => e.code
                == ErrorCode::SimulationNotStarted || e.code == ErrorCode::MissingArgument
                || e.code == ErrorCode::InvalidKey,
            (AnyRequest::ProcessEventRequest(_), AnyReply::ProcessEvent(Err(e))) => e.code
                == ErrorCode::SimulationNotStarted,
            (AnyRequest::ProcessQueryRequest(_), AnyReply::ProcessQuery(Err(e))) => e.code
                == ErrorCode::SimulationNotStarted,
            (AnyRequest::ReadEventsRequest(_), AnyReply::ReadEvents(Err(e))) => e.code
                == ErrorCode::SimulationNotStarted,
            (AnyRequest::OpenSinkRequest(_), AnyReply::OpenSink(Err(e))) => e.code
                == ErrorCode::SimulationNotStarted,
            (AnyRequest::CloseSinkRequest(_), AnyReply::CloseSink(Err(e))) => e.code
                == ErrorCode::SimulationNotStarted,
            _ => false,
        },
{
}

/// What each request leaves as it is. The sources and the sinks never change, the keys
/// change only if an event is scheduled or cancelled, scheduled actions change only if
/// an event is scheduled or cancelled or if the simulation is stepped, and simulation
/// time changes only if the simulation is stepped.
pub proof fn law_what_requests_leave_unchanged<E, Q, K, DE, DQ, C, O, L, S>(
    before: SimulationService<E, Q, K>,
    request: AnyRequest,
    handlers: Handlers<DE, DQ, C, O, L, (), S>,
    reply: AnyReply,
    after: SimulationService<E, Q, K>,
) where
    DE: FnOnce(&E, &Vec<u8>) -> Result<u64, CodecError>,
    DQ: FnOnce(&Q, &Vec<u8>) -> Result<u64, CodecError>,
    C: FnOnce(&K) -> Result<Vec<Vec<u8>>, CodecError>,
    O: FnOnce(&K) -> (),
    L: FnOnce(&K) -> (),
    S: FnOnce(MonotonicTime) -> (Simulation, EndpointRegistry<E, Q, K>),

    requires
        before.started(),
        !(request is InitRequest),
        SimulationService::answered(before, request, handlers, reply, after),
    ensures
        after.started(),
        after.endpoints() == before.endpoints(),
        !(request is ScheduleEventRequest) && !(request is CancelEventRequest) ==> after.keys()
            == before.keys(),
        !(request is StepRequest) && !(request is StepUntilRequest) ==> after.sim().now()
            == before.sim().now(),
        request is ProcessEventRequest || request is ProcessQueryRequest
            ==> after.sim().scheduled() == before.sim().scheduled(),
        request is TimeRequest || request is ReadEventsRequest || request is OpenSinkRequest
            || request is CloseSinkRequest ==> after == before,
{
}

/// A simulation is started at exactly the requested time, or at the epoch if no time
/// is requested. The new simulation replaces any other one, and none of its events has
/// a key. An invalid time leaves everything as it is.
///
/// The start time and the bench are returned.
pub proof fn law_started_simulation<E, Q, K, S>(
    before: SimulationService<E, Q, K>,
    request: InitRequest,
    start: S,
    result: Result<(), Error>,
    after: SimulationService<E, Q, K>,
) -> (started: (MonotonicTime, (Simulation, EndpointRegistry<E, Q, K>))) where
    S: FnOnce(MonotonicTime) -> (Simulation, EndpointRegistry<E, Q, K>),

    requires
        SimulationService::init_answered(before, request, start, result, after),
    ensures
        result is Ok <==> (request.time matches Some(time) ==> 0 <= time.nanos <= 999_999_999),
        result matches Err(e) ==> e.code == ErrorCode::InvalidTime && after == before,
        result is Ok ==> {
            &&& start.ensures((started.0,), started.1)
            &&& started.0@ == match request.time {
                Some(time) => time.seconds * 1_000_000_000 + time.nanos,
                None => 0,
            }
            &&& after.started()
            &&& after.sim() == started.1.0
            &&& after.endpoints() == started.1.1
            &&& forall|id: KeyRegistryId| !(#[trigger] after.keys()@.dom().contains(id))
        },
{
    choose|time: MonotonicTime, bench: (Simulation, EndpointRegistry<E, Q, K>)| #[trigger]
        start.ensures((time,), bench) && {
            &&& time@ == instant(start_time(request))
            &&& result is Ok
            &&& after.started()
            &&& after.sim() == bench.0
            &&& after.endpoints() == bench.1
            &&& after.keys()@ == Map::<KeyRegistryId, RegisteredKey>::empty()
        }
}

/// The requests that a service is ready for. Any request can be processed as long as no
/// simulation was started. Otherwise, requests that need the simulation to be run can be
/// processed only if it does not wait for anything.
pub proof fn law_readiness<E, Q, K>(service: SimulationService<E, Q, K>, request: AnyRequest)
    ensures
        !service.started() ==> service.ready(request),
        service.started() ==> ({
            let idle = service.sim().awaiting() is Idle;
            service.ready(request) <==> match request {
                AnyRequest::StepRequest(_) => idle && service.sim().can_repeat(
                    i64::MAX * 1_000_000_000 + 999_999_999,
                ),
                AnyRequest::StepUntilRequest(step) => idle && can_step_until(service.sim(), step),
                AnyRequest::ScheduleEventRequest(event) => can_schedule(
                    service.sim(),
                    service.keys(),
                    event,
                ),
                AnyRequest::ProcessEventRequest(_) => idle,
                AnyRequest::ProcessQueryRequest(_) => idle,
                AnyRequest::InitRequest(_) => true,
                AnyRequest::TimeRequest(_) => true,
                AnyRequest::CancelEventRequest(_) => true,
                AnyRequest::ReadEventsRequest(_) => true,
                AnyRequest::OpenSinkRequest(_) => true,
                AnyRequest::CloseSinkRequest(_) => true,
            }
        }),
{
}

/// A request to advance simulation time until a deadline is carried out on the active
/// simulation, if there is one. The sources, the sinks and the keys remain the same. A
/// deadline that is not valid is refused even if there is no simulation.
pub proof fn law_step_until_request<E, Q, K>(
    before: SimulationService<E, Q, K>,
    request: StepUntilRequest,
    result: Result<Command, Error>,
    after: SimulationService<E, Q, K>,
)
    requires
        SimulationService::step_until_answered(before, request, result, after),
    ensures
        after.started() == before.started(),
        before.started() ==> stepped_until(before.sim(), request, result, after.sim())
            && after.endpoints() == before.endpoints() && after.keys() == before.keys(),
        !before.started() ==> (result matches Err(e) && e.code == match target_refusal(
            request.deadline,
        ) {
            Some(refusal) => refusal.0,
            None => ErrorCode::SimulationNotStarted,
        }),
{
}

/// A request to cancel an event cancels the event with the requested key in the active
/// simulation, if there is one. The sources and the sinks remain the same. A key that is
/// missing, or the first part of which is too large for an index, is refused even if there
/// is no simulation.
pub proof fn law_cancel_request<E, Q, K>(
    before: SimulationService<E, Q, K>,
    request: CancelEventRequest,
    result: Result<(), Error>,
    after: SimulationService<E, Q, K>,
)
    requires
        SimulationService::cancel_answered(before, request, result, after),
    ensures
        after.started() == before.started(),
        before.started() ==> after.endpoints() == before.endpoints(),
        request.key is None ==> after == before && (result matches Err(e) && e.code
            == ErrorCode::MissingArgument),
        request.key matches Some(key) ==> if before.started() {
            event_cancelled(before.sim(), before.keys(), key, result, after.sim(), after.keys())
        } else {
            result matches Err(e) && e.code == if key.subkey1 > usize::MAX {
                ErrorCode::InvalidKey
            } else {
                ErrorCode::SimulationNotStarted
            }
        },
{
}

/// A request to schedule an event that is refused for whatever reason gets the error that
/// tells the reason and changes nothing. A period that is not valid is refused even if
/// there is no simulation.
pub proof fn law_refused_schedule_request<E, Q, K, F>(
    before: SimulationService<E, Q, K>,
    request: ScheduleEventRequest,
    decode: F,
    result: Result<Option<EventKey>, Error>,
    after: SimulationService<E, Q, K>,
) where F: FnOnce(&E, &Vec<u8>) -> Result<u64, CodecError>
    requires
        SimulationService::schedule_answered(before, request, decode, result, after),
    ensures
        after.started() == before.started(),
        before.started() && result is Err ==> after.sim() == before.sim() && after.keys()
            == before.keys(),
        !before.started() ==> (result matches Err(e) && e.code == if request.period matches Some(
            period,
        ) && (period.seconds < 0 || period.nanos < 0 || (period.seconds == 0 && period.nanos
            == 0)) {
            ErrorCode::InvalidDuration
        } else {
            ErrorCode::SimulationNotStarted
        }),
        before.started() ==> (schedule_refusal(
            request,
            before.endpoints().event_source_registry,
        ) matches Some(refusal) ==> (result matches Err(e) && e.code == refusal.0 && e.message@
            == refusal.1)),
{
}

} // verus!
