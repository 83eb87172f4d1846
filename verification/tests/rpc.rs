use std::cell::RefCell;

use asynchronix::rpc::key_registry::{KeyRegistry, KeyRegistryId};
use asynchronix::rpc::message::{
    AnyRequest, CancelEventRequest, CloseSinkRequest, CodecError, Deadline, Error, ErrorCode,
    EventKey, InitRequest, OpenSinkRequest, ProcessEventRequest, ProcessQueryRequest,
    ReadEventsRequest, ScheduleEventRequest, StepRequest, StepUntilRequest, TimeRequest, TimeSpan,
    Timestamp,
};
use asynchronix::rpc::protobuf::{check_request, AnyReply, Handlers, ProtobufService};
use asynchronix::rpc::registry::{EndpointRegistry, Registry};
use asynchronix::rpc::services::controller_service::ControllerService;
use asynchronix::rpc::services::init_service::init;
use asynchronix::rpc::services::monitor_service::MonitorService;
use asynchronix::rpc::services::{
    check_reachable, map_execution_error, map_scheduling_error, monotonic_to_timestamp,
    simulation_not_started_error, timestamp_to_monotonic, to_positive_duration,
    to_strictly_positive_duration, MAX_SECS, MIN_SECS,
};
use asynchronix::rpc::simulation_service::monitoring_service::MonitoringService;
use asynchronix::rpc::simulation_service::SimulationService;
use asynchronix::simulation::error::ExecutionError;
use asynchronix::simulation::scheduler::{SchedulerQueue, SchedulingError};
use asynchronix::simulation::{Command, Simulation};
use asynchronix::time::{Duration, MonotonicTime, SyncStatus};

fn at(secs: i64) -> MonotonicTime {
    MonotonicTime::new(secs, 0).unwrap()
}

fn stamp(seconds: i64) -> Timestamp {
    Timestamp { seconds, nanos: 0 }
}

fn span(seconds: i64) -> TimeSpan {
    TimeSpan { seconds, nanos: 0 }
}

fn time_deadline(seconds: i64) -> Option<Deadline> {
    Some(Deadline::Time(stamp(seconds)))
}

fn is_error<T>(result: Result<T, Error>, code: ErrorCode, message: &str) -> bool {
    match result {
        Ok(_) => false,
        Err(e) => {
            assert_eq!(e.message, message);
            e.code == code
        }
    }
}

/// Sources are identified by the number that is added to their events.
type Source = u64;

/// Sinks hold events and a flag which tells if they are open.
type Sink = RefCell<(Vec<u8>, bool)>;

fn decode(source: &Source, event: &Vec<u8>) -> Result<u64, CodecError> {
    if event.is_empty() {
        Err(CodecError {
            message_type: "u64".to_string(),
            description: "no data".to_string(),
        })
    } else {
        Ok(*source + event[0] as u64)
    }
}

fn collect(sink: &Sink) -> Result<Vec<Vec<u8>>, CodecError> {
    let events = std::mem::take(&mut sink.borrow_mut().0);
    if events.contains(&255) {
        return Err(CodecError {
            message_type: "u8".to_string(),
            description: "too large".to_string(),
        });
    }
    Ok(events.into_iter().map(|event| vec![event]).collect())
}

fn open(sink: &Sink) {
    sink.borrow_mut().1 = true;
}

fn close(sink: &Sink) {
    sink.borrow_mut().1 = false;
}

fn bench(time: MonotonicTime) -> Simulation {
    Simulation::new(
        SchedulerQueue::new(),
        time,
        None,
        Duration::new(1, 0),
        vec!["model".to_string()],
        vec!["model".to_string()],
    )
}

fn endpoints() -> EndpointRegistry<Source, Source, Sink> {
    let mut registry = EndpointRegistry::new();
    assert!(registry.add_event_source(100, "input".to_string()).is_ok());
    assert!(registry.add_query_source(200, "replier".to_string()).is_ok());
    let sink = RefCell::new((vec![1, 2], true));
    assert!(registry.add_event_sink(sink, "output".to_string()).is_ok());
    registry
}

fn controller() -> ControllerService<Source, Source> {
    let endpoints = endpoints();
    ControllerService::Started {
        simulation: bench(at(0)),
        event_source_registry: endpoints.event_source_registry,
        query_source_registry: endpoints.query_source_registry,
        key_registry: KeyRegistry::new(),
    }
}

fn simulation_service() -> SimulationService<Source, Source, Sink> {
    let mut service = SimulationService::new();
    let request = InitRequest {
        time: None,
        cfg: Vec::new(),
    };
    assert!(service.init(request, |time| (bench(time), endpoints())).is_ok());
    service
}

/// Performs the commands of a simulation and collects the performed actions.
fn drive(simulation: &mut Simulation, mut command: Command) -> Result<Vec<u64>, ExecutionError> {
    let mut performed = Vec::new();
    loop {
        command = match command {
            Command::Step(batch) => {
                for sequence in batch.sequences.iter() {
                    for action in sequence.iter() {
                        performed.push(action.id);
                    }
                }
                simulation.synchronized(SyncStatus::Synchronized)?
            }
            Command::Synchronize(_) => simulation.synchronized(SyncStatus::Synchronized)?,
            Command::Run(_) => simulation.executed(Ok(()), &vec![0], None)?,
            Command::Done => return Ok(performed),
        };
    }
}

fn controller_simulation(service: &mut ControllerService<Source, Source>) -> &mut Simulation {
    match service {
        ControllerService::Started { simulation, .. } => simulation,
        ControllerService::NotStarted => panic!(),
    }
}

fn schedule_request(
    event: u8,
    deadline: Option<Deadline>,
    period: Option<TimeSpan>,
    with_key: bool,
) -> ScheduleEventRequest {
    ScheduleEventRequest {
        source_name: "input".to_string(),
        event: vec![event],
        period,
        with_key,
        deadline,
    }
}

#[test]
fn timestamps() {
    let time = MonotonicTime::new(-5, 999_999_999).unwrap();
    let timestamp = monotonic_to_timestamp(time).unwrap();
    assert_eq!((timestamp.seconds, timestamp.nanos), (-5, 999_999_999));
    assert!(timestamp_to_monotonic(timestamp).unwrap().same(&time));

    // Range of the protobuf specification.
    assert!(monotonic_to_timestamp(at(MIN_SECS)).is_some());
    assert!(monotonic_to_timestamp(at(MIN_SECS - 1)).is_none());
    assert!(monotonic_to_timestamp(MonotonicTime::new(MAX_SECS, 999_999_999).unwrap()).is_some());
    assert!(monotonic_to_timestamp(at(MAX_SECS + 1)).is_none());

    // Range of the nanosecond part.
    for nanos in [-1, 1_000_000_000, i32::MAX] {
        assert!(timestamp_to_monotonic(Timestamp { seconds: 0, nanos }).is_none());
    }
    let default = timestamp_to_monotonic(Timestamp::default()).unwrap();
    assert!(default.same(&MonotonicTime::epoch()));
}

#[test]
fn durations() {
    let duration = to_positive_duration(TimeSpan {
        seconds: 2,
        nanos: 1_500_000_000,
    })
    .unwrap();
    assert_eq!((duration.as_secs(), duration.subsec_nanos()), (3, 500_000_000));
    assert!(to_positive_duration(span(0)).unwrap().is_zero());
    assert!(to_positive_duration(span(-1)).is_none());
    assert!(to_positive_duration(TimeSpan {
        seconds: 1,
        nanos: -1
    })
    .is_none());

    assert!(to_strictly_positive_duration(span(0)).is_none());
    assert!(to_strictly_positive_duration(span(-1)).is_none());
    assert!(to_strictly_positive_duration(TimeSpan {
        seconds: 0,
        nanos: 1
    })
    .is_some());
}

#[test]
fn reachable_deadlines() {
    let now = MonotonicTime::max();
    assert!(check_reachable(&None, &now));
    assert!(check_reachable(&time_deadline(5), &now));
    assert!(check_reachable(&Some(Deadline::Duration(span(0))), &now));
    assert!(!check_reachable(&Some(Deadline::Duration(span(1))), &now));
    // Invalid durations are rejected in another way.
    assert!(check_reachable(&Some(Deadline::Duration(span(-1))), &now));
    assert!(check_reachable(&Some(Deadline::Duration(span(1))), &at(0)));
}

#[test]
fn error_codes() {
    assert!(is_error::<()>(
        Err(simulation_not_started_error()),
        ErrorCode::SimulationNotStarted,
        "the simulation was not started"
    ));
    assert_eq!(
        map_execution_error(ExecutionError::Deadlock(Vec::new())).code,
        ErrorCode::SimulationDeadlock
    );
    assert_eq!(
        map_execution_error(ExecutionError::Timeout).code,
        ErrorCode::SimulationTimeout
    );
    assert_eq!(
        map_execution_error(ExecutionError::OutOfSync(Duration::zero())).code,
        ErrorCode::SimulationOutOfSync
    );
    assert_eq!(
        map_execution_error(ExecutionError::BadQuery).code,
        ErrorCode::SimulationBadQuery
    );
    assert_eq!(
        map_execution_error(ExecutionError::Terminated).code,
        ErrorCode::SimulationTerminated
    );
    assert_eq!(
        map_execution_error(ExecutionError::InvalidDeadline(at(1))).code,
        ErrorCode::InvalidDeadline
    );
    assert_eq!(
        map_execution_error(ExecutionError::Terminated).message,
        "the simulation has been terminated"
    );
    assert_eq!(
        map_scheduling_error(SchedulingError::InvalidScheduledTime).code,
        ErrorCode::InvalidDeadline
    );
    assert_eq!(
        map_scheduling_error(SchedulingError::NullRepetitionPeriod).code,
        ErrorCode::InvalidPeriod
    );
}

#[test]
fn keys_are_extracted_once() {
    let mut registry = KeyRegistry::new();
    assert!(registry.can_insert());
    let a = registry.insert_key(10, at(5));
    let b = registry.insert_eternal_key(20);
    let c = registry.insert_key(30, at(1));
    assert_eq!(registry.extract_key(a), Some(10));
    assert_eq!(registry.extract_key(a), None);

    // Keys that expire now are still valid.
    registry.remove_expired_keys(at(1));
    assert_eq!(registry.extract_key(c), Some(30));

    // The slot of an extracted key is reused, but not its identifier.
    let d = registry.insert_key(40, at(2));
    assert_eq!(registry.extract_key(a), None);
    assert_eq!(registry.extract_key(c), None);
    registry.remove_expired_keys(at(3));
    assert_eq!(registry.extract_key(d), None);
    assert_eq!(registry.extract_key(b), Some(20));
    assert_eq!(KeyRegistry::default().extract_key(b), None);
}

#[test]
fn insertion_keeps_all_keys() {
    let mut registry = KeyRegistry::new();
    let time = MonotonicTime::new(5, 0).unwrap();
    let ids: Vec<KeyRegistryId> = (0..4).map(|key| registry.insert_key(key, time)).collect();
    let eternal = registry.insert_eternal_key(9);
    for (i, id) in ids.iter().enumerate() {
        assert_ne!(*id, eternal);
        assert_eq!(registry.extract_key(*id), Some(i as u64));
    }
    assert_eq!(registry.extract_key(eternal), Some(9));
}

#[test]
fn eternal_keys_do_not_expire() {
    let mut registry = KeyRegistry::new();
    let eternal = registry.insert_eternal_key(9);
    let id = registry.insert_key(1, MonotonicTime::new(5, 0).unwrap());
    registry.remove_expired_keys(MonotonicTime::new(6, 0).unwrap());
    registry.remove_expired_keys(MonotonicTime::max());
    registry.remove_expired_keys(MonotonicTime::max());
    assert_eq!(registry.extract_key(id), None);
    assert_eq!(registry.extract_key(eternal), Some(9));
}

#[test]
fn key_identifiers_as_raw_parts() {
    let mut registry = KeyRegistry::new();
    let id = registry.insert_eternal_key(1);
    let (index, epoch) = id.into_raw_parts();
    assert_eq!(
        registry.extract_key(KeyRegistryId::from_raw_parts(index, epoch + 1)),
        None
    );
    assert_eq!(
        registry.extract_key(KeyRegistryId::from_raw_parts(index + 1, epoch)),
        None
    );
    assert_eq!(
        registry.extract_key(KeyRegistryId::from_raw_parts(index, epoch)),
        Some(1)
    );
}

#[test]
fn endpoint_names_are_unique() {
    let mut registry = endpoints();
    assert_eq!(registry.add_event_source(1, "input".to_string()), Err(1));
    assert_eq!(registry.add_query_source(2, "replier".to_string()), Err(2));
    assert!(registry
        .add_event_sink(RefCell::new((vec![], true)), "output".to_string())
        .is_err());
    // Different kinds of endpoints can have the same name.
    assert_eq!(registry.add_query_source(3, "input".to_string()), Ok(()));
    assert_eq!(registry.query_source_registry.get("input"), Some(&3));
    assert_eq!(registry.event_source_registry.get("input"), Some(&100));
    assert_eq!(registry.event_source_registry.get("other"), None);
    assert_eq!(registry.query_source_registry.len(), 2);
    assert_eq!(registry.to_text(), "EndpointRegistry (1 sources, 1 sinks)");
    *registry.event_source_registry.get_mut("input").unwrap() = 101;
    assert_eq!(registry.event_source_registry.get("input"), Some(&101));
    assert_eq!(registry.event_source_registry.get_mut("other"), None);
}

#[test]
fn controller_not_started() {
    let mut service: ControllerService<Source, Source> = ControllerService::NotStarted;
    let text = "the simulation was not started";
    let code = ErrorCode::SimulationNotStarted;
    assert!(is_error(service.time(TimeRequest {}), code, text));
    assert!(is_error(service.step(StepRequest {}), code, text));
    assert!(is_error(
        service.step_until(StepUntilRequest { deadline: None }),
        code,
        text
    ));
    assert!(is_error(
        service.schedule_event(schedule_request(1, None, None, false), decode),
        code,
        text
    ));
    assert!(is_error(
        service.cancel_event(CancelEventRequest { key: None }),
        code,
        text
    ));
    assert!(is_error(
        service.process_event(
            ProcessEventRequest {
                source_name: String::new(),
                event: vec![]
            },
            decode
        ),
        code,
        text
    ));
    assert!(is_error(
        service.process_query(
            ProcessQueryRequest {
                source_name: String::new(),
                request: vec![]
            },
            decode
        ),
        code,
        text
    ));
}

#[test]
fn controller_steps() {
    let mut service = controller();
    assert_eq!(service.time(TimeRequest {}).unwrap(), stamp(0));
    for (event, deadline) in [(2, 4), (1, 3), (3, 9)] {
        let request = schedule_request(event, time_deadline(deadline), None, false);
        assert_eq!(service.schedule_event(request, decode).unwrap(), None);
    }

    let command = service.step(StepRequest {}).unwrap();
    let outcome = drive(controller_simulation(&mut service), command);
    assert_eq!(outcome.unwrap(), vec![101]);
    assert_eq!(service.step_reply(Ok(())).unwrap(), stamp(3));

    let request = StepUntilRequest {
        deadline: Some(Deadline::Duration(span(2))),
    };
    let command = service.step_until(request).unwrap();
    let outcome = drive(controller_simulation(&mut service), command);
    assert_eq!(outcome.unwrap(), vec![102]);
    assert_eq!(service.step_reply(Ok(())).unwrap(), stamp(5));

    assert!(is_error(
        service.step_reply(Err(ExecutionError::Timeout)),
        ErrorCode::SimulationTimeout,
        "the simulation step has failed to complete within the allocated time"
    ));
}

#[test]
fn controller_step_until_errors() {
    let mut service = controller();
    assert!(is_error(
        service.step_until(StepUntilRequest { deadline: None }),
        ErrorCode::MissingArgument,
        "missing deadline argument"
    ));
    assert!(is_error(
        service.step_until(StepUntilRequest {
            deadline: Some(Deadline::Time(Timestamp {
                seconds: 1,
                nanos: -1
            }))
        }),
        ErrorCode::InvalidTime,
        "out-of-range nanosecond field"
    ));
    assert!(is_error(
        service.step_until(StepUntilRequest {
            deadline: time_deadline(-1)
        }),
        ErrorCode::InvalidTime,
        "the specified deadline lies in the past"
    ));
    assert!(is_error(
        service.step_until(StepUntilRequest {
            deadline: Some(Deadline::Duration(span(-1)))
        }),
        ErrorCode::InvalidDuration,
        "the specified deadline lies in the past"
    ));
}

#[test]
fn controller_schedule_errors() {
    let mut service = controller();
    let mut request = schedule_request(1, time_deadline(1), None, false);
    request.source_name = "other".to_string();
    assert!(is_error(
        service.schedule_event(request, decode),
        ErrorCode::SourceNotFound,
        "no event source is registered with the name 'other'"
    ));
    assert!(is_error(
        service.schedule_event(schedule_request(1, time_deadline(1), Some(span(0)), false), decode),
        ErrorCode::InvalidDuration,
        "the specified event period is not strictly positive"
    ));
    assert!(is_error(
        service.schedule_event(schedule_request(1, None, None, false), decode),
        ErrorCode::MissingArgument,
        "missing deadline argument"
    ));
    let deadline = Some(Deadline::Time(Timestamp {
        seconds: 1,
        nanos: 1_000_000_000,
    }));
    assert!(is_error(
        service.schedule_event(schedule_request(1, deadline, None, false), decode),
        ErrorCode::InvalidTime,
        "out-of-range nanosecond field"
    ));
    let deadline = Some(Deadline::Duration(span(0)));
    assert!(is_error(
        service.schedule_event(schedule_request(1, deadline, None, false), decode),
        ErrorCode::InvalidDuration,
        "the specified scheduling deadline is not in the future"
    ));
    let mut request = schedule_request(1, time_deadline(1), None, false);
    request.event = vec![];
    assert!(is_error(
        service.schedule_event(request, decode),
        ErrorCode::InvalidMessage,
        "the event could not be deserialized as type 'u64': no data"
    ));
    assert!(is_error(
        service.schedule_event(schedule_request(1, time_deadline(0), None, true), decode),
        ErrorCode::InvalidDeadline,
        "the scheduled time should be in the future of the current simulation time"
    ));
    // Nothing was scheduled.
    let command = service.step(StepRequest {}).unwrap();
    let outcome = drive(controller_simulation(&mut service), command);
    assert_eq!(outcome.unwrap(), vec![]);
}

#[test]
fn controller_cancellation() {
    let mut service = controller();
    let key = service
        .schedule_event(schedule_request(1, time_deadline(2), None, true), decode)
        .unwrap()
        .unwrap();
    let periodic_key = service
        .schedule_event(
            schedule_request(2, time_deadline(2), Some(span(1)), true),
            decode,
        )
        .unwrap()
        .unwrap();
    assert_ne!(key, periodic_key);
    assert!(service
        .cancel_event(CancelEventRequest { key: Some(key) })
        .is_ok());
    assert!(is_error(
        service.cancel_event(CancelEventRequest { key: Some(key) }),
        ErrorCode::InvalidKey,
        "invalid or expired event key"
    ));
    assert!(is_error(
        service.cancel_event(CancelEventRequest { key: None }),
        ErrorCode::MissingArgument,
        "missing key argument"
    ));

    // Only the periodic event is performed.
    let request = StepUntilRequest {
        deadline: time_deadline(4),
    };
    let command = service.step_until(request).unwrap();
    let outcome = drive(controller_simulation(&mut service), command);
    assert_eq!(outcome.unwrap(), vec![102, 102, 102]);

    // The key of a periodic event does not expire.
    assert!(service
        .cancel_event(CancelEventRequest {
            key: Some(periodic_key)
        })
        .is_ok());
    let command = service.step(StepRequest {}).unwrap();
    let outcome = drive(controller_simulation(&mut service), command);
    assert_eq!(outcome.unwrap(), vec![]);

    // The key of an event that was performed has expired.
    let key = service
        .schedule_event(schedule_request(1, time_deadline(5), None, true), decode)
        .unwrap()
        .unwrap();
    let request = StepUntilRequest {
        deadline: time_deadline(6),
    };
    let command = service.step_until(request).unwrap();
    assert!(drive(controller_simulation(&mut service), command).is_ok());
    assert!(is_error(
        service.cancel_event(CancelEventRequest { key: Some(key) }),
        ErrorCode::InvalidKey,
        "invalid or expired event key"
    ));
}

#[test]
fn controller_processes_events_and_queries() {
    let mut service = controller();
    let (event, command) = service
        .process_event(
            ProcessEventRequest {
                source_name: "input".to_string(),
                event: vec![5],
            },
            decode,
        )
        .unwrap();
    assert_eq!(event, 105);
    assert!(matches!(command, Command::Run(_)));
    assert!(drive(controller_simulation(&mut service), command).is_ok());
    assert!(service.process_event_reply(Ok(())).is_ok());
    assert!(is_error(
        service.process_event_reply(Err(ExecutionError::Terminated)),
        ErrorCode::SimulationTerminated,
        "the simulation has been terminated"
    ));
    assert!(is_error(
        service.process_event(
            ProcessEventRequest {
                source_name: "output".to_string(),
                event: vec![5],
            },
            decode,
        ),
        ErrorCode::SourceNotFound,
        "no source is registered with the name 'output'"
    ));
    assert!(is_error(
        service.process_event(
            ProcessEventRequest {
                source_name: "input".to_string(),
                event: vec![],
            },
            decode,
        ),
        ErrorCode::InvalidMessage,
        "the event could not be deserialized as type 'u64': no data"
    ));

    let (query, command) = service
        .process_query(
            ProcessQueryRequest {
                source_name: "replier".to_string(),
                request: vec![6],
            },
            decode,
        )
        .unwrap();
    assert_eq!(query, 206);
    assert!(drive(controller_simulation(&mut service), command).is_ok());
    assert_eq!(
        service
            .process_query_reply(Ok(()), Some(Ok(vec![vec![1], vec![2]])))
            .unwrap(),
        vec![vec![1], vec![2]]
    );
    assert!(is_error(
        service.process_query_reply(Ok(()), None),
        ErrorCode::InternalError,
        "a reply to the query was expected but none was available"
    ));
    assert!(is_error(
        service.process_query_reply(
            Ok(()),
            Some(Err(CodecError {
                message_type: "R".to_string(),
                description: "oops".to_string()
            }))
        ),
        ErrorCode::InvalidMessage,
        "the reply could not be serialized as type 'R': oops"
    ));
    assert!(is_error(
        service.process_query_reply(Err(ExecutionError::BadQuery), None),
        ErrorCode::SimulationBadQuery,
        "the query did not return any response; was the target mailbox added to the simulation?"
    ));
    assert!(is_error(
        service.process_query(
            ProcessQueryRequest {
                source_name: "input".to_string(),
                request: vec![6],
            },
            decode,
        ),
        ErrorCode::SourceNotFound,
        "no source is registered with the name 'input'"
    ));
    assert!(is_error(
        service.process_query(
            ProcessQueryRequest {
                source_name: "replier".to_string(),
                request: vec![],
            },
            decode,
        ),
        ErrorCode::InvalidMessage,
        "the request could not be deserialized as type 'u64': no data"
    ));
}

#[test]
fn controller_time_out_of_range() {
    let endpoints = endpoints();
    let service = ControllerService::Started {
        simulation: bench(at(MAX_SECS + 1)),
        event_source_registry: endpoints.event_source_registry,
        query_source_registry: endpoints.query_source_registry,
        key_registry: KeyRegistry::new(),
    };
    assert!(is_error(
        service.time(TimeRequest {}),
        ErrorCode::SimulationTimeOutOfRange,
        "the final simulation time is out of range"
    ));
}

#[test]
fn monitor_sinks() {
    let service: MonitorService<Sink> = MonitorService::Started {
        event_sink_registry: endpoints().event_sink_registry,
    };
    let read = |name: &str| ReadEventsRequest {
        sink_name: name.to_string(),
    };
    assert_eq!(
        service.read_events(read("output"), collect).unwrap(),
        vec![vec![1], vec![2]]
    );
    assert_eq!(
        service.read_events(read("output"), collect).unwrap(),
        Vec::<Vec<u8>>::new()
    );
    assert!(is_error(
        service.read_events(read("none"), collect),
        ErrorCode::SinkNotFound,
        "no sink is registered with the name 'none'"
    ));
    let request = CloseSinkRequest {
        sink_name: "output".to_string(),
    };
    assert!(service.close_sink(request, close).is_ok());
    match &service {
        MonitorService::Started {
            event_sink_registry,
        } => assert!(!event_sink_registry.get("output").unwrap().borrow().1),
        MonitorService::NotStarted => panic!(),
    }
    let request = OpenSinkRequest {
        sink_name: "output".to_string(),
    };
    assert!(service.open_sink(request, open).is_ok());
    let request = OpenSinkRequest {
        sink_name: "none".to_string(),
    };
    assert!(is_error(
        service.open_sink(request, open),
        ErrorCode::SinkNotFound,
        "no sink is registered with the name 'none'"
    ));
    match &service {
        MonitorService::Started {
            event_sink_registry,
        } => {
            let sink = event_sink_registry.get("output").unwrap();
            assert!(sink.borrow().1);
            sink.borrow_mut().0.push(255);
        }
        MonitorService::NotStarted => panic!(),
    }
    assert!(is_error(
        service.read_events(read("output"), collect),
        ErrorCode::InvalidMessage,
        "the event could not be serialized from type 'u8': too large"
    ));

    let service: MonitorService<Sink> = MonitorService::NotStarted;
    assert!(is_error(
        service.read_events(read("output"), collect),
        ErrorCode::SimulationNotStarted,
        "the simulation was not started"
    ));
    let request = CloseSinkRequest {
        sink_name: "output".to_string(),
    };
    assert!(is_error(
        service.close_sink(request, close),
        ErrorCode::SimulationNotStarted,
        "the simulation was not started"
    ));
}

#[test]
fn monitoring_sinks() {
    let mut registry: Registry<Sink> = Registry::new();
    let sink = RefCell::new((vec![3, 255], false));
    assert!(registry.add(sink, "s".to_string()).is_ok());
    let service = MonitoringService::new(registry);
    let request = OpenSinkRequest {
        sink_name: "s".to_string(),
    };
    assert!(service.open_sink(request, open).is_ok());
    let request = ReadEventsRequest {
        sink_name: "s".to_string(),
    };
    assert!(is_error(
        service.read_events(request, collect),
        ErrorCode::InvalidMessage,
        "the event could not be serialized from type 'u8'"
    ));
    let request = ReadEventsRequest {
        sink_name: "s".to_string(),
    };
    assert!(service.read_events(request, collect).is_ok());
    let request = CloseSinkRequest {
        sink_name: "t".to_string(),
    };
    assert!(is_error(
        service.close_sink(request, close),
        ErrorCode::SinkNotFound,
        "no sink is registered with the name 't'"
    ));
}

#[test]
fn initialization() {
    let request = InitRequest {
        time: Some(stamp(7)),
        cfg: vec![1, 2, 3],
    };
    let result = init(
        &request,
        |cfg: &Vec<u8>| Ok(cfg.len()),
        |bench, time| (bench, time.as_secs()),
    );
    assert!(matches!(result, Ok((3, 7))));

    // The default is the epoch.
    let request = InitRequest {
        time: None,
        cfg: vec![],
    };
    let result = init(&request, |_| Ok(()), |_, time: MonotonicTime| time);
    assert!(result.unwrap().same(&MonotonicTime::epoch()));

    let result = init(
        &request,
        |_| Err::<(), String>("bad".to_string()),
        |_, _| (),
    );
    assert!(is_error(
        result,
        ErrorCode::InvalidMessage,
        "the initialization configuration could not be deserialized: bad"
    ));

    let request = InitRequest {
        time: Some(Timestamp {
            seconds: 0,
            nanos: -1,
        }),
        cfg: vec![],
    };
    let result = init(&request, |_| Ok(()), |_, _| ());
    assert!(is_error(
        result,
        ErrorCode::InvalidTime,
        "out-of-range nanosecond field"
    ));
}

#[test]
fn simulation_service_requests() {
    let mut service = simulation_service();
    assert_eq!(service.time(TimeRequest {}).unwrap(), stamp(0));
    let key = service
        .schedule_event(schedule_request(1, time_deadline(2), None, true), decode)
        .unwrap()
        .unwrap();
    assert!(service
        .schedule_event(schedule_request(3, time_deadline(2), None, false), decode)
        .unwrap()
        .is_none());
    assert!(service
        .cancel_event(CancelEventRequest { key: Some(key) })
        .is_ok());
    assert!(service
        .cancel_event(CancelEventRequest { key: Some(key) })
        .is_err());
    let command = service.step(StepRequest {}).unwrap();
    let simulation = &mut service.sim_context.as_mut().unwrap().simulation;
    assert_eq!(drive(simulation, command).unwrap(), vec![103]);
    assert_eq!(service.step_reply(Ok(())).unwrap(), stamp(2));

    assert!(is_error(
        service.step_until(StepUntilRequest {
            deadline: time_deadline(1)
        }),
        ErrorCode::InvalidTime,
        "the specified deadline lies in the past"
    ));
    let mut request = schedule_request(3, time_deadline(5), None, false);
    request.event = vec![];
    assert!(is_error(
        service.schedule_event(request, decode),
        ErrorCode::InvalidMessage,
        "the event could not be deserialized as type 'u64'"
    ));
    let request = ReadEventsRequest {
        sink_name: "output".to_string(),
    };
    assert_eq!(
        service.read_events(request, collect).unwrap(),
        vec![vec![1], vec![2]]
    );
    let (query, _) = service
        .process_query(
            ProcessQueryRequest {
                source_name: "replier".to_string(),
                request: vec![1],
            },
            decode,
        )
        .unwrap();
    assert_eq!(query, 201);
}

#[test]
fn simulation_service_not_started() {
    let mut service: SimulationService<Source, Source, Sink> = SimulationService::new();
    let request = InitRequest {
        time: Some(Timestamp {
            seconds: 0,
            nanos: 1_000_000_000,
        }),
        cfg: vec![],
    };
    assert!(is_error(
        service.init(request, |time| (bench(time), endpoints())),
        ErrorCode::InvalidTime,
        "out-of-range nanosecond field"
    ));
    assert!(is_error(
        service.time(TimeRequest {}),
        ErrorCode::SimulationNotStarted,
        "the simulation was not started"
    ));
}

#[test]
fn bad_requests() {
    match check_request(Err("truncated".to_string())) {
        Err(e) => assert_eq!(e.to_text(), "bad request: truncated"),
        Ok(_) => panic!(),
    }
    match check_request(Ok(None)) {
        Err(e) => assert_eq!(e.to_text(), "the message did not contain any request"),
        Ok(_) => panic!(),
    }
    assert!(matches!(
        check_request(Ok(Some(AnyRequest::StepRequest(StepRequest {})))),
        Ok(AnyRequest::StepRequest(_))
    ));
}

fn dispatch(
    service: &mut ProtobufService<Source, Source, Sink>,
    request: AnyRequest,
) -> AnyReply {
    let handlers = Handlers {
        decode_event: decode,
        decode_query: decode,
        collect,
        open,
        close,
        sim_gen: |cfg: &Vec<u8>| {
            if cfg.is_empty() {
                Err("empty".to_string())
            } else {
                Ok(())
            }
        },
        start: |_, time| (bench(time), endpoints()),
    };
    match service.process_request(Ok(Some(request)), handlers) {
        Ok(reply) => reply,
        Err(_) => panic!("the request was recognized"),
    }
}

#[test]
fn protobuf_requests_are_dispatched() {
    let mut service = ProtobufService::new();
    let time = || AnyRequest::TimeRequest(TimeRequest {});
    assert!(matches!(
        dispatch(&mut service, time()),
        AnyReply::Time(Err(_))
    ));
    let request = InitRequest {
        time: None,
        cfg: vec![],
    };
    assert!(matches!(
        dispatch(&mut service, AnyRequest::InitRequest(request)),
        AnyReply::Init(Err(_))
    ));
    let request = InitRequest {
        time: Some(stamp(2)),
        cfg: vec![1],
    };
    assert!(matches!(
        dispatch(&mut service, AnyRequest::InitRequest(request)),
        AnyReply::Init(Ok(()))
    ));
    match dispatch(&mut service, time()) {
        AnyReply::Time(Ok(timestamp)) => assert_eq!(timestamp, stamp(2)),
        _ => panic!(),
    }
    let request = schedule_request(1, time_deadline(3), None, true);
    let key = match dispatch(&mut service, AnyRequest::ScheduleEventRequest(request)) {
        AnyReply::ScheduleEvent(Ok(Some(key))) => key,
        _ => panic!(),
    };
    let request = CancelEventRequest { key: Some(key) };
    assert!(matches!(
        dispatch(&mut service, AnyRequest::CancelEventRequest(request)),
        AnyReply::CancelEvent(Ok(()))
    ));
    let request = ReadEventsRequest {
        sink_name: "output".to_string(),
    };
    assert!(matches!(
        dispatch(&mut service, AnyRequest::ReadEventsRequest(request)),
        AnyReply::ReadEvents(Ok(_))
    ));
    let request = OpenSinkRequest {
        sink_name: "output".to_string(),
    };
    assert!(matches!(
        dispatch(&mut service, AnyRequest::OpenSinkRequest(request)),
        AnyReply::OpenSink(Ok(()))
    ));
    let request = CloseSinkRequest {
        sink_name: "output".to_string(),
    };
    assert!(matches!(
        dispatch(&mut service, AnyRequest::CloseSinkRequest(request)),
        AnyReply::CloseSink(Ok(()))
    ));
    let request = StepUntilRequest { deadline: None };
    assert!(matches!(
        dispatch(&mut service, AnyRequest::StepUntilRequest(request)),
        AnyReply::StepUntil(Err(_))
    ));
    assert!(matches!(
        dispatch(&mut service, AnyRequest::StepRequest(StepRequest {})),
        AnyReply::Step(Ok(Command::Done))
    ));
    let request = ProcessQueryRequest {
        source_name: "replier".to_string(),
        request: vec![],
    };
    assert!(matches!(
        dispatch(&mut service, AnyRequest::ProcessQueryRequest(request)),
        AnyReply::ProcessQuery(Err(_))
    ));
    let request = ProcessEventRequest {
        source_name: "input".to_string(),
        event: vec![9],
    };
    assert!(matches!(
        dispatch(&mut service, AnyRequest::ProcessEventRequest(request)),
        AnyReply::ProcessEvent(Ok((109, Command::Run(_))))
    ));
}

#[test]
fn readiness_for_requests() {
    let step = AnyRequest::StepRequest(StepRequest {});
    let mut service = ProtobufService::new();
    assert!(service.is_ready(&step));
    let request = InitRequest {
        time: Some(stamp(0)),
        cfg: vec![1],
    };
    dispatch(&mut service, AnyRequest::InitRequest(request));
    assert!(service.is_ready(&step));

    // A deadline beyond the latest instant.
    let deadline = Some(Deadline::Duration(span(i64::MAX)));
    let until = |deadline| AnyRequest::StepUntilRequest(StepUntilRequest { deadline });
    assert!(service.is_ready(&until(deadline)));
    let request = StepUntilRequest {
        deadline: time_deadline(1),
    };
    match dispatch(&mut service, AnyRequest::StepUntilRequest(request)) {
        AnyReply::StepUntil(Ok(command)) => {
            // No other request can be processed in the meantime.
            assert!(!service.is_ready(&step));
            let simulation = controller_simulation(&mut service.controller_service);
            assert!(drive(simulation, command).is_ok());
        }
        _ => panic!(),
    }
    assert!(service.is_ready(&step));
    assert!(!service.is_ready(&until(deadline)));
    assert!(service.is_ready(&until(None)));
    let schedule =
        |period| AnyRequest::ScheduleEventRequest(schedule_request(1, deadline, period, true));
    assert!(!service.is_ready(&schedule(None)));
    // The period is checked first.
    assert!(service.is_ready(&schedule(Some(span(0)))));

    // A periodic event cannot be repeated beyond the latest instant.
    let request = schedule_request(1, time_deadline(i64::MAX), Some(span(1)), false);
    dispatch(&mut service, AnyRequest::ScheduleEventRequest(request));
    assert!(!service.is_ready(&step));

    let service = simulation_service();
    assert!(service.is_ready(&step));
    assert!(service.is_ready(&until(None)));
}

#[test]
fn event_keys_are_plain_values() {
    let key = EventKey {
        subkey1: 1,
        subkey2: 2,
    };
    let mut service = controller();
    assert!(is_error(
        service.cancel_event(CancelEventRequest { key: Some(key) }),
        ErrorCode::InvalidKey,
        "invalid or expired event key"
    ));
}

#[test]
fn keys_cancel_one_event_only() {
    let mut service = controller();
    let mut keys = Vec::new();
    for event in 1..=3 {
        let request = schedule_request(event, time_deadline(2), None, true);
        keys.push(service.schedule_event(request, decode).unwrap().unwrap());
    }
    let request = schedule_request(4, time_deadline(2), None, false);
    assert_eq!(service.schedule_event(request, decode).unwrap(), None);
    assert!(service
        .cancel_event(CancelEventRequest { key: Some(keys[1]) })
        .is_ok());
    let command = service.step(StepRequest {}).unwrap();
    let outcome = drive(controller_simulation(&mut service), command);
    assert_eq!(outcome.unwrap(), vec![101, 103, 104]);
}
