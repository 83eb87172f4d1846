//! Simulation management with any kind of requests.

use vstd::prelude::*;
use vstd::string::StringExecFns;

use super::key_registry::{KeyRegistry, KeyRegistryId, RegisteredKey};
use super::message::{
    AnyRequest, CodecError, Error, ErrorCode, EventKey, InitRequest, Timestamp,
};
use super::registry::EndpointRegistry;
use super::services::controller_service::{
    can_schedule, can_step_until, check_schedule, check_step_until, draws_new_keys,
    ControllerService,
};
use super::services::init_service::{self, bench_initialized};
use super::services::monitor_service::MonitorService;
use super::services::{not_started, time_result};
use crate::simulation::{Command, Phase, Simulation};
use crate::time::{max_instant, MonotonicTime};

verus! {

/// An error returned when a request could not be understood.
#[derive(Debug)]
pub struct InvalidRequest {
    description: String,
}

impl InvalidRequest {
    /// The description of the error.
    pub closed spec fn text(self) -> Seq<char> {
        self.description@
    }

    /// Describes the error.
    pub fn to_text(&self) -> (text: String)
        ensures
            text@ == self.text(),
    {
        self.description.clone()
    }
}

/// The description of the error returned for a message that could not be
/// decoded, or did not contain any request.
pub open spec fn invalid_request_text(decoded: Result<Option<AnyRequest>, String>) -> Seq<char> {
    match decoded {
        Err(description) => "bad request: "@ + description@,
        Ok(_) => "the message did not contain any request"@,
    }
}

/// Checks that a message was decoded and contained a request.
pub fn check_request(decoded: Result<Option<AnyRequest>, String>) -> (result: Result<
    AnyRequest,
    InvalidRequest,
>)
    ensures
        match result {
            Ok(request) => decoded == Ok::<Option<AnyRequest>, String>(Some(request)),
            Err(e) => {
                &&& !(decoded matches Ok(Some(_)))
                &&& e.text() == invalid_request_text(decoded)
            },
        },
{
    match decoded {
        Ok(Some(request)) => Ok(request),
        Ok(None) => Err(
            InvalidRequest { description: "the message did not contain any request".to_owned() },
        ),
        Err(e) => {
            let mut description = "bad request: ".to_owned();
            description.append(e.as_str());
            Err(InvalidRequest { description })
        },
    }
}

/// The answer to a request. Some requests need the simulation to be run before
/// they can be answered.
pub enum AnyReply {
    /// The simulation was started.
    Init(Result<(), Error>),
    /// The current simulation time.
    Time(Result<Timestamp, Error>),
    /// The first command to be executed.
    Step(Result<Command, Error>),
    /// The first command to be executed.
    StepUntil(Result<Command, Error>),
    /// The key of the scheduled event, if it was requested.
    ScheduleEvent(Result<Option<EventKey>, Error>),
    /// The event was cancelled.
    CancelEvent(Result<(), Error>),
    /// The event to be spawned and the first command to be executed.
    ProcessEvent(Result<(u64, Command), Error>),
    /// The query to be spawned and the first command to be executed.
    ProcessQuery(Result<(u64, Command), Error>),
    /// The events from the sink.
    ReadEvents(Result<Vec<Vec<u8>>, Error>),
    /// The sink was opened.
    OpenSink(Result<(), Error>),
    /// The sink was closed.
    CloseSink(Result<(), Error>),
}

/// What the services cannot do by themselves.
pub struct Handlers<DE, DQ, C, O, L, G, S> {
    /// Decodes an event. The number that designates an event requested with a key is
    /// a new one.
    pub decode_event: DE,
    /// Decodes a query.
    pub decode_query: DQ,
    /// Takes all events from a sink and serializes them.
    pub collect: C,
    /// Opens a sink.
    pub open: O,
    /// Closes a sink.
    pub close: L,
    /// Creates a simulation bench from a serialized configuration.
    pub sim_gen: G,
    /// Starts a simulation bench at the specified time.
    pub start: S,
}

/// Simulation manager.
///
/// A `ProtobufService` enables the management of the lifecycle of a simulation,
/// including creating a [`Simulation`], invoking its methods and instantiating a
/// new simulation.
pub struct ProtobufService<E, Q, K> {
    /// The control service.
    pub controller_service: ControllerService<E, Q>,
    /// The monitoring service.
    pub monitor_service: MonitorService<K>,
}

/// Whether a freshly started simulation is sound and does not wait for
/// anything.
pub open spec fn is_fresh<E, Q, K>(bench: (Simulation, EndpointRegistry<E, Q, K>)) -> bool {
    bench.0.wf() && bench.0.awaiting() is Idle && bench.1.wf()
}

impl<E, Q, K> ProtobufService<E, Q, K> {
    /// The invariant of the services.
    pub open spec fn wf(self) -> bool {
        self.controller_service.wf() && self.monitor_service.wf()
    }

    /// Creates a new `ProtobufService` without any active simulation.
    pub fn new() -> (service: Self)
        ensures
            service.wf(),
            !service.controller_service.started(),
            service.monitor_service is NotStarted,
    {
        ProtobufService {
            controller_service: ControllerService::NotStarted,
            monitor_service: MonitorService::NotStarted,
        }
    }

    /// Whether the services manage the given bench, none of the events of which
    /// has a key.
    pub open spec fn manages(self, bench: (Simulation, EndpointRegistry<E, Q, K>)) -> bool {
        &&& self.controller_service.started()
        &&& self.controller_service.sim() == bench.0
        &&& self.controller_service.event_sources() == bench.1.event_source_registry
        &&& self.controller_service.query_sources() == bench.1.query_source_registry
        &&& self.controller_service.keys()@ == Map::<KeyRegistryId, RegisteredKey>::empty()
        &&& self.monitor_service == MonitorService::Started {
            event_sink_registry: bench.1.event_sink_registry,
        }
    }

    /// What happens upon a request to start a simulation.
    pub open spec fn init_answered<B, G, S>(
        before: Self,
        request: InitRequest,
        sim_gen: G,
        start: S,
        result: Result<(), Error>,
        after: Self,
    ) -> bool where
        G: FnOnce(&Vec<u8>) -> Result<B, String>,
        S: FnOnce(B, MonotonicTime) -> (Simulation, EndpointRegistry<E, Q, K>),
     {
        exists|bench: Result<(Simulation, EndpointRegistry<E, Q, K>), Error>| #[trigger]
            bench_initialized(request, sim_gen, start, bench) && match bench {
                Ok(bench) => result is Ok && after.manages(bench),
                Err(e) => result == Err::<(), Error>(e) && after == before,
            }
    }

    /// Initializes a simulation with the provided time.
    ///
    /// If a simulation is already active, it is destructed and replaced with a
    /// new simulation.
    ///
    /// If the initialization time is not provided, it is initialized with the
    /// epoch of [`MonotonicTime`] (1970-01-01 00:00:00 TAI).
    pub fn init<B, G, S>(&mut self, request: InitRequest, sim_gen: G, start: S) -> (result: Result<
        (),
        Error,
    >) where
        G: FnOnce(&Vec<u8>) -> Result<B, String>,
        S: FnOnce(B, MonotonicTime) -> (Simulation, EndpointRegistry<E, Q, K>),

        requires
            old(self).wf(),
            forall|cfg: &Vec<u8>| sim_gen.requires((cfg,)),
            forall|bench: B, time: MonotonicTime| start.requires((bench, time)),
            forall|
                bench: B,
                time: MonotonicTime,
                started: (Simulation, EndpointRegistry<E, Q, K>),
            | #[trigger] start.ensures((bench, time), started) ==> is_fresh(started),
        ensures
            final(self).wf(),
            Self::init_answered(*old(self), request, sim_gen, start, result, *final(self)),
    {
        let bench = init_service::init(&request, sim_gen, start);
        let ghost outcome = bench;
        assert(bench_initialized(request, sim_gen, start, outcome));
        match bench {
            Ok(bench) => {
                let ghost started = bench;
                assert(is_fresh(started));
                let (simulation, endpoint_registry) = bench;
                self.controller_service = ControllerService::Started {
                    simulation,
                    event_source_registry: endpoint_registry.event_source_registry,
                    query_source_registry: endpoint_registry.query_source_registry,
                    key_registry: KeyRegistry::new(),
                };
                self.monitor_service = MonitorService::Started {
                    event_sink_registry: endpoint_registry.event_sink_registry,
                };
                Ok(())
            },
            Err(e) => Err(e),
        }
    }

    /// Whether the service is ready to process a request.
    pub open spec fn ready(self, request: AnyRequest) -> bool {
        let controller = self.controller_service;
        match request {
            AnyRequest::StepRequest(_) => {
                &&& controller.idle()
                &&& controller.started() ==> controller.sim().can_repeat(max_instant())
            },
            AnyRequest::StepUntilRequest(request) => {
                &&& controller.idle()
                &&& controller.started() ==> can_step_until(controller.sim(), request)
            },
            AnyRequest::ScheduleEventRequest(request) => controller.started() ==> can_schedule(
                controller.sim(),
                controller.keys(),
                request,
            ),
            AnyRequest::ProcessEventRequest(_) => controller.idle(),
            AnyRequest::ProcessQueryRequest(_) => controller.idle(),
            _ => true,
        }
    }

    /// Checks if the service is ready to process a request.
    pub fn is_ready(&self, request: &AnyRequest) -> (r: bool)
        requires
            self.wf(),
        ensures
            r == self.ready(*request),
    {
        match &self.controller_service {
            ControllerService::NotStarted => true,
            ControllerService::Started { simulation, key_registry, .. } => {
                let idle = matches!(simulation.phase(), Phase::Idle);
                match request {
                    AnyRequest::StepRequest(_) => idle && simulation.is_repeatable(
                        &MonotonicTime::max(),
                    ),
                    AnyRequest::StepUntilRequest(request) => idle && check_step_until(
                        simulation,
                        request,
                    ),
                    AnyRequest::ScheduleEventRequest(request) => check_schedule(
                        simulation,
                        key_registry,
                        request,
                    ),
                    AnyRequest::ProcessEventRequest(_) | AnyRequest::ProcessQueryRequest(_) => idle,
                    _ => true,
                }
            },
        }
    }

    /// What happens upon a request.
    pub open spec fn answered<B, DE, DQ, C, O, L, G, S>(
        before: Self,
        request: AnyRequest,
        handlers: Handlers<DE, DQ, C, O, L, G, S>,
        reply: AnyReply,
        after: Self,
    ) -> bool where
        DE: FnOnce(&E, &Vec<u8>) -> Result<u64, CodecError>,
        DQ: FnOnce(&Q, &Vec<u8>) -> Result<u64, CodecError>,
        C: FnOnce(&K) -> Result<Vec<Vec<u8>>, CodecError>,
        O: FnOnce(&K) -> (),
        L: FnOnce(&K) -> (),
        G: FnOnce(&Vec<u8>) -> Result<B, String>,
        S: FnOnce(B, MonotonicTime) -> (Simulation, EndpointRegistry<E, Q, K>),
     {
        let old_controller = before.controller_service;
        let controller = after.controller_service;
        &&& !(request is InitRequest) ==> after.monitor_service == before.monitor_service
        &&& match (request, reply) {
            (AnyRequest::InitRequest(request), AnyReply::Init(result)) => Self::init_answered(
                before,
                request,
                handlers.sim_gen,
                handlers.start,
                result,
                after,
            ),
            (AnyRequest::TimeRequest(_), AnyReply::Time(result)) => {
                &&& controller == old_controller
                &&& if controller.started() {
                    time_result(controller.sim().now(), result)
                } else {
                    result is Err && not_started(result->Err_0)
                }
            },
            (
                AnyRequest::StepRequest(_),
                AnyReply::Step(result),
            ) => ControllerService::step_answered(old_controller, result, controller),
            (
                AnyRequest::StepUntilRequest(request),
                AnyReply::StepUntil(result),
            ) => ControllerService::step_until_answered(
                old_controller,
                request,
                result,
                controller,
            ),
            (
                AnyRequest::ScheduleEventRequest(request),
                AnyReply::ScheduleEvent(result),
            ) => ControllerService::schedule_answered(
                old_controller,
                request,
                handlers.decode_event,
                result,
                controller,
            ),
            (
                AnyRequest::CancelEventRequest(request),
                AnyReply::CancelEvent(result),
            ) => ControllerService::cancel_answered(old_controller, request, result, controller),
            (
                AnyRequest::ProcessEventRequest(request),
                AnyReply::ProcessEvent(result),
            ) => ControllerService::event_answered(
                old_controller,
                request,
                handlers.decode_event,
                result,
                controller,
            ),
            (
                AnyRequest::ProcessQueryRequest(request),
                AnyReply::ProcessQuery(result),
            ) => ControllerService::query_answered(
                old_controller,
                request,
                handlers.decode_query,
                result,
                controller,
            ),
            (AnyRequest::ReadEventsRequest(request), AnyReply::ReadEvents(result)) => {
                &&& controller == old_controller
                &&& before.monitor_service.read_answered(request, handlers.collect, result)
            },
            (AnyRequest::OpenSinkRequest(request), AnyReply::OpenSink(result)) => {
                &&& controller == old_controller
                &&& before.monitor_service.switch_answered(
                    request.sink_name@,
                    handlers.open,
                    result,
                )
            },
            (AnyRequest::CloseSinkRequest(request), AnyReply::CloseSink(result)) => {
                &&& controller == old_controller
                &&& before.monitor_service.switch_answered(
                    request.sink_name@,
                    handlers.close,
                    result,
                )
            },
            _ => false,
        }
    }

    /// Processes a message that was decoded, unless it was not possible.
    pub fn process_request<B, DE, DQ, C, O, L, G, S>(
        &mut self,
        decoded: Result<Option<AnyRequest>, String>,
        handlers: Handlers<DE, DQ, C, O, L, G, S>,
    ) -> (result: Result<AnyReply, InvalidRequest>) where
        DE: FnOnce(&E, &Vec<u8>) -> Result<u64, CodecError>,
        DQ: FnOnce(&Q, &Vec<u8>) -> Result<u64, CodecError>,
        C: FnOnce(&K) -> Result<Vec<Vec<u8>>, CodecError>,
        O: FnOnce(&K) -> (),
        L: FnOnce(&K) -> (),
        G: FnOnce(&Vec<u8>) -> Result<B, String>,
        S: FnOnce(B, MonotonicTime) -> (Simulation, EndpointRegistry<E, Q, K>),

        requires
            old(self).wf(),
            decoded matches Ok(Some(request)) ==> old(self).ready(request),
            old(self).controller_service.started() ==> (decoded matches Ok(
                Some(AnyRequest::ScheduleEventRequest(request)),
            ) ==> draws_new_keys::<E, DE>(
                old(self).controller_service.sim(),
                old(self).controller_service.keys(),
                request,
                handlers.decode_event,
            )),
            forall|source: &E, event: &Vec<u8>| handlers.decode_event.requires((source, event)),
            forall|source: &Q, query: &Vec<u8>| handlers.decode_query.requires((source, query)),
            forall|sink: &K| handlers.collect.requires((sink,)),
            forall|sink: &K| handlers.open.requires((sink,)),
            forall|sink: &K| handlers.close.requires((sink,)),
            forall|cfg: &Vec<u8>| handlers.sim_gen.requires((cfg,)),
            forall|bench: B, time: MonotonicTime| handlers.start.requires((bench, time)),
            forall|
                bench: B,
                time: MonotonicTime,
                started: (Simulation, EndpointRegistry<E, Q, K>),
            | #[trigger] handlers.start.ensures((bench, time), started) ==> is_fresh(started),
        ensures
            final(self).wf(),
            match (decoded, result) {
                (Ok(Some(request)), Ok(reply)) => Self::answered(
                    *old(self),
                    request,
                    handlers,
                    reply,
                    *final(self),
                ),
                (Ok(Some(_)), Err(_)) => false,
                (_, result) => {
                    &&& result is Err
                    &&& result->Err_0.text() == invalid_request_text(decoded)
                    &&& *final(self) == *old(self)
                },
            },
    {
        let request = match check_request(decoded) {
            Ok(request) => request,
            Err(e) => return Err(e),
        };
        Ok(
            match request {
                AnyRequest::InitRequest(request) => AnyReply::Init(
                    self.init(request, handlers.sim_gen, handlers.start),
                ),
                AnyRequest::TimeRequest(request) => AnyReply::Time(
                    self.controller_service.time(request),
                ),
                AnyRequest::StepRequest(request) => AnyReply::Step(
                    self.controller_service.step(request),
                ),
                AnyRequest::StepUntilRequest(request) => AnyReply::StepUntil(
                    self.controller_service.step_until(request),
                ),
                AnyRequest::ScheduleEventRequest(request) => AnyReply::ScheduleEvent(
                    self.controller_service.schedule_event(request, handlers.decode_event),
                ),
                AnyRequest::CancelEventRequest(request) => AnyReply::CancelEvent(
                    self.controller_service.cancel_event(request),
                ),
                AnyRequest::ProcessEventRequest(request) => AnyReply::ProcessEvent(
                    self.controller_service.process_event(request, handlers.decode_event),
                ),
                AnyRequest::ProcessQueryRequest(request) => AnyReply::ProcessQuery(
                    self.controller_service.process_query(request, handlers.decode_query),
                ),
                AnyRequest::ReadEventsRequest(request) => AnyReply::ReadEvents(
                    self.monitor_service.read_events(request, handlers.collect),
                ),
                AnyRequest::OpenSinkRequest(request) => AnyReply::OpenSink(
                    self.monitor_service.open_sink(request, handlers.open),
                ),
                AnyRequest::CloseSinkRequest(request) => AnyReply::CloseSink(
                    self.monitor_service.close_sink(request, handlers.close),
                ),
            },
        )
    }
}

/// Until a simulation is started, any request other than one to start a simulation is
/// refused.
pub proof fn law_requests_need_a_simulation<E, Q, K, B, DE, DQ, C, O, L, G, S>(
    before: ProtobufService<E, Q, K>,
    request: AnyRequest,
    handlers: Handlers<DE, DQ, C, O, L, G, S>,
    reply: AnyReply,
    after: ProtobufService<E, Q, K>,
) where
    DE: FnOnce(&E, &Vec<u8>) -> Result<u64, CodecError>,
    DQ: FnOnce(&Q, &Vec<u8>) -> Result<u64, CodecError>,
    C: FnOnce(&K) -> Result<Vec<Vec<u8>>, CodecError>,
    O: FnOnce(&K) -> (),
    L: FnOnce(&K) -> (),
    G: FnOnce(&Vec<u8>) -> Result<B, String>,
    S: FnOnce(B, MonotonicTime) -> (Simulation, EndpointRegistry<E, Q, K>),

    requires
        !before.controller_service.started(),
        before.monitor_service is NotStarted,
        ProtobufService::answered(before, request, handlers, reply, after),
    ensures
        !(request is InitRequest) ==> !after.controller_service.started()
            && after.monitor_service is NotStarted,
        match (request, reply) {
            (AnyRequest::InitRequest(_), AnyReply::Init(_)) => true,
            (AnyRequest::TimeRequest(_), AnyReply::Time(Err(e))) => e.code
                == ErrorCode::SimulationNotStarted,
            (AnyRequest::StepRequest(_), AnyReply::Step(Err(e))) => e.code
                == ErrorCode::SimulationNotStarted,
            (AnyRequest::StepUntilRequest(_), AnyReply::StepUntil(Err(e))) => e.code
                == ErrorCode::SimulationNotStarted,
            (AnyRequest::ScheduleEventRequest(_), AnyReply::ScheduleEvent(Err(e))) => e.code
                == ErrorCode::SimulationNotStarted,
            (AnyRequest::CancelEventRequest(_), AnyReply::CancelEvent(Err(e))) => e.code
                == ErrorCode::SimulationNotStarted,
            (AnyRequest::ProcessEventRequest(_), AnyReply::ProcessEvent(Err(e))) => e.code
                == ErrorCode::SimulationNotStarted,
            (AnyRequest::ProcessQueryRequest(_), AnyReply::ProcessQuery(Err(e))) => e.code
                == ErrorCode::SimulationNotStarted,
            (AnyRequest::ReadEventsRequest(_), AnyReply::ReadEvents(Err(e))) => e.code
                == ErrorCode::SimulationNotStarted,
            (AnyRequest::OpenSinkRequest(_), AnyReply::OpenSink(Err(e))) => e.code
                == ErrorCode::SimulationNotStarted,
            (AnyRequest::CloseSinkRequest(_), AnyReply::CloseSink(Err(e))) => e.code
                == ErrorCode::SimulationNotStarted,
            _ => false,
        },
{
}

/// What each request leaves as it is. The sources and the sinks never change, the keys
/// change only if an event is scheduled or cancelled, scheduled actions change only if
/// an event is scheduled or cancelled or if the simulation is stepped, and simulation
/// time changes only if the simulation is stepped.
pub proof fn law_what_requests_leave_unchanged<E, Q, K, B, DE, DQ, C, O, L, G, S>(
    before: ProtobufService<E, Q, K>,
    request: AnyRequest,
    handlers: Handlers<DE, DQ, C, O, L, G, S>,
    reply: AnyReply,
    after: ProtobufService<E, Q, K>,
) where
    DE: FnOnce(&E, &Vec<u8>) -> Result<u64, CodecError>,
    DQ: FnOnce(&Q, &Vec<u8>) -> Result<u64, CodecError>,
    C: FnOnce(&K) -> Result<Vec<Vec<u8>>, CodecError>,
    O: FnOnce(&K) -> (),
    L: FnOnce(&K) -> (),
    G: FnOnce(&Vec<u8>) -> Result<B, String>,
    S: FnOnce(B, MonotonicTime) -> (Simulation, EndpointRegistry<E, Q, K>),

    requires
        before.controller_service.started(),
        !(request is InitRequest),
        ProtobufService::answered(before, request, handlers, reply, after),
    ensures
        after.monitor_service == before.monitor_service,
        ({
            let previous = before.controller_service;
            let current = after.controller_service;
            &&& current.started()
            &&& current.event_sources() == previous.event_sources()
            &&& current.query_sources() == previous.query_sources()
            &&& !(request is ScheduleEventRequest) && !(request is CancelEventRequest)
                ==> current.keys() == previous.keys()
            &&& !(request is StepRequest) && !(request is StepUntilRequest) ==> current.sim().now()
                == previous.sim().now()
            &&& request is ProcessEventRequest || request is ProcessQueryRequest
                ==> current.sim().scheduled() == previous.sim().scheduled()
            &&& request is TimeRequest || request is ReadEventsRequest
                || request is OpenSinkRequest || request is CloseSinkRequest ==> current == previous
        }),
{
}

/// A simulation that could be started replaces any other one and none of its events
/// has a key. It is controlled and monitored with its own sources and sinks. A failure
/// leaves everything as it is.
///
/// What resulted from the initialization of the bench is returned.
pub proof fn law_started_simulation<E, Q, K, B, G, S>(
    before: ProtobufService<E, Q, K>,
    request: InitRequest,
    sim_gen: G,
    start: S,
    result: Result<(), Error>,
    after: ProtobufService<E, Q, K>,
) -> (bench: Result<(Simulation, EndpointRegistry<E, Q, K>), Error>) where
    G: FnOnce(&Vec<u8>) -> Result<B, String>,
    S: FnOnce(B, MonotonicTime) -> (Simulation, EndpointRegistry<E, Q, K>),

    requires
        ProtobufService::init_answered(before, request, sim_gen, start, result, after),
    ensures
        bench_initialized(request, sim_gen, start, bench),
        match bench {
            Ok((simulation, endpoints)) => {
                &&& result is Ok
                &&& after.controller_service.started()
                &&& after.controller_service.sim() == simulation
                &&& after.controller_service.event_sources() == endpoints.event_source_registry
                &&& after.controller_service.query_sources() == endpoints.query_source_registry
                &&& forall|id: KeyRegistryId|
                    !(#[trigger] after.controller_service.keys()@.dom().contains(id))
                &&& after.monitor_service matches MonitorService::Started { event_sink_registry }
                &&& event_sink_registry == endpoints.event_sink_registry
            },
            Err(e) => result == Err::<(), Error>(e) && after == before,
        },
{
    choose|bench: Result<(Simulation, EndpointRegistry<E, Q, K>), Error>| #[trigger]
        bench_initialized(request, sim_gen, start, bench) && match bench {
            Ok(bench) => result is Ok && after.manages(bench),
            Err(e) => result == Err::<(), Error>(e) && after == before,
        }
}

/// A message is refused if and only if it could not be decoded or holds no request. The
/// description tells which, along with the reason why it could not be decoded.
pub proof fn law_invalid_requests(decoded: Result<Option<AnyRequest>, String>, reason: String)
    ensures
        invalid_request_text(Err(reason)) == "bad request: "@ + reason@,
        decoded is Ok ==> invalid_request_text(decoded)
            == "the message did not contain any request"@,
{
}

/// The requests that a service is ready for. Any request can be processed as long as no
/// simulation was started. Otherwise, requests that need the simulation to be run can be
/// processed only if it does not wait for anything.
pub proof fn law_readiness<E, Q, K>(service: ProtobufService<E, Q, K>, request: AnyRequest)
    ensures
        ({
            let controller = service.controller_service;
            let idle = controller.sim().awaiting() is Idle;
            &&& !controller.started() ==> service.ready(request)
            &&& controller.started() ==> (service.ready(request) <==> match request {
                AnyRequest::StepRequest(_) => idle && controller.sim().can_repeat(
                    i64::MAX * 1_000_000_000 + 999_999_999,
                ),
                AnyRequest::StepUntilRequest(step) => idle && can_step_until(
                    controller.sim(),
                    step,
                ),
                AnyRequest::ScheduleEventRequest(event) => can_schedule(
                    controller.sim(),
                    controller.keys(),
                    event,
                ),
                AnyRequest::ProcessEventRequest(_) => idle,
                AnyRequest::ProcessQueryRequest(_) => idle,
                AnyRequest::InitRequest(_) => true,
                AnyRequest::TimeRequest(_) => true,
                AnyRequest::CancelEventRequest(_) => true,
                AnyRequest::ReadEventsRequest(_) => true,
                AnyRequest::OpenSinkRequest(_) => true,
                AnyRequest::CloseSinkRequest(_) => true,
            })
        }),
{
}

} // verus!
