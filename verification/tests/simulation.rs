use asynchronix::executor::ExecutorError;
use asynchronix::model::{BuildContext, Context};
use asynchronix::simulation::error::{
    DeadlockInfo, ExecutionError, PanicPayload, SimulationError,
};
use asynchronix::simulation::model_id::{leave_model, ModelFuture, ModelId};
use asynchronix::simulation::scheduler::{Action, Batch, SchedulerQueue, SchedulingError};
use asynchronix::simulation::{add_model, Command, Phase, Simulation};
use asynchronix::time::{Duration, MonotonicTime, SyncStatus};

fn at(secs: i64) -> MonotonicTime {
    MonotonicTime::new(secs, 0).unwrap()
}

fn once(id: u64) -> Action {
    Action {
        id,
        period: None,
        key: None,
    }
}

fn keyed(id: u64, key: u64) -> Action {
    Action {
        id,
        period: None,
        key: Some(key),
    }
}

fn periodic(id: u64, secs: u64) -> Action {
    Action {
        id,
        period: Some(Duration::new(secs, 0)),
        key: None,
    }
}

fn ids(batch: &Batch) -> Vec<Vec<u64>> {
    batch
        .sequences
        .iter()
        .map(|sequence| sequence.iter().map(|action| action.id).collect())
        .collect()
}

fn bench(tolerance: Option<Duration>) -> Simulation {
    Simulation::new(
        SchedulerQueue::new(),
        at(0),
        tolerance,
        Duration::new(7, 0),
        vec!["alpha".to_string(), "beta".to_string(), "gamma".to_string()],
        vec!["alpha".to_string(), "beta".to_string()],
    )
}

/// Performs all steps of a request and collects the identifiers of all actions
/// with the time at which they are performed.
fn drive(
    simulation: &mut Simulation,
    start: Result<Command, ExecutionError>,
) -> Result<Vec<(i64, Vec<Vec<u64>>)>, ExecutionError> {
    let mut performed = Vec::new();
    let mut command = start?;
    loop {
        command = match command {
            Command::Step(batch) => {
                performed.push((batch.time.as_secs(), ids(&batch)));
                simulation.synchronized(SyncStatus::Synchronized)?
            }
            Command::Synchronize(_) => simulation.synchronized(SyncStatus::Synchronized)?,
            Command::Run(_) => simulation.executed(Ok(()), &vec![0, 0, 0], None)?,
            Command::Done => return Ok(performed),
        };
    }
}

fn step(simulation: &mut Simulation) -> Result<Vec<(i64, Vec<Vec<u64>>)>, ExecutionError> {
    let start = simulation.step();
    drive(simulation, start)
}

fn step_until(
    simulation: &mut Simulation,
    target: MonotonicTime,
) -> Result<Vec<(i64, Vec<Vec<u64>>)>, ExecutionError> {
    let start = simulation.step_until(target);
    drive(simulation, start)
}

#[test]
fn step_moves_to_the_next_action() {
    let mut simulation = bench(None);
    assert!(simulation.schedule(at(5), 0, once(1)).is_ok());
    assert!(simulation.schedule(at(3), 0, once(2)).is_ok());
    assert_eq!(step(&mut simulation).unwrap(), vec![(3, vec![vec![2]])]);
    assert_eq!(simulation.time().as_secs(), 3);
    assert_eq!(step(&mut simulation).unwrap(), vec![(5, vec![vec![1]])]);
    // Nothing is left to be done.
    assert_eq!(step(&mut simulation).unwrap(), vec![]);
    assert_eq!(simulation.time().as_secs(), 5);
}

#[test]
fn actions_of_the_same_origin_keep_their_order() {
    let mut simulation = bench(None);
    assert!(simulation.schedule(at(1), 2, once(20)).is_ok());
    assert!(simulation.schedule(at(1), 1, once(10)).is_ok());
    assert!(simulation.schedule(at(1), 2, once(21)).is_ok());
    assert!(simulation.schedule(at(1), 1, once(11)).is_ok());
    assert!(simulation.schedule(at(1), 3, once(30)).is_ok());
    assert!(simulation.schedule(at(1), 1, once(12)).is_ok());
    assert_eq!(
        step(&mut simulation).unwrap(),
        vec![(1, vec![vec![10, 11, 12], vec![20, 21], vec![30]])]
    );
}

#[test]
fn periodic_actions_are_repeated() {
    let mut simulation = bench(None);
    assert!(simulation.schedule(at(1), 0, periodic(1, 2)).is_ok());
    assert!(simulation.schedule(at(3), 0, once(2)).is_ok());
    assert_eq!(
        step_until(&mut simulation, at(6)).unwrap(),
        // The repeated action was scheduled after the other one.
        vec![
            (1, vec![vec![1]]),
            (3, vec![vec![2, 1]]),
            (5, vec![vec![1]])
        ]
    );
    assert_eq!(simulation.time().as_secs(), 6);
}

#[test]
fn cancelled_actions_are_discarded() {
    let mut simulation = bench(None);
    assert!(simulation.schedule(at(1), 0, keyed(1, 100)).is_ok());
    assert!(simulation.schedule(at(2), 0, keyed(2, 200)).is_ok());
    assert!(simulation.schedule(at(2), 0, once(3)).is_ok());
    let mut repeated = periodic(4, 1);
    repeated.key = Some(300);
    assert!(simulation.schedule(at(2), 0, repeated).is_ok());
    simulation.cancel(100);
    assert_eq!(step(&mut simulation).unwrap(), vec![(2, vec![vec![2, 3, 4]])]);
    // The next occurrence is cancelled too.
    simulation.cancel(300);
    assert_eq!(step(&mut simulation).unwrap(), vec![]);
}

#[test]
fn step_until_stops_at_the_target() {
    let mut simulation = bench(None);
    assert!(simulation.schedule(at(2), 0, once(1)).is_ok());
    assert!(simulation.schedule(at(4), 0, once(2)).is_ok());
    assert!(simulation.schedule(at(5), 0, once(3)).is_ok());
    // The target time coincides with an action.
    assert_eq!(
        step_until(&mut simulation, at(4)).unwrap(),
        vec![(2, vec![vec![1]]), (4, vec![vec![2]])]
    );
    assert_eq!(simulation.time().as_secs(), 4);
    // The current time is an acceptable target.
    assert_eq!(step_until(&mut simulation, at(4)).unwrap(), vec![]);
    // There is no action at the target time.
    assert_eq!(
        step_until(&mut simulation, at(10)).unwrap(),
        vec![(5, vec![vec![3]])]
    );
    assert_eq!(simulation.time().as_secs(), 10);
}

#[test]
fn step_until_is_like_repeated_steps() {
    let mut until = bench(None);
    let mut repeated = bench(None);
    for simulation in [&mut until, &mut repeated] {
        assert!(simulation.schedule(at(1), 0, keyed(1, 9)).is_ok());
        assert!(simulation.schedule(at(2), 1, periodic(2, 3)).is_ok());
        assert!(simulation.schedule(at(4), 0, keyed(3, 9)).is_ok());
        assert!(simulation.schedule(at(5), 0, once(4)).is_ok());
        assert!(simulation.schedule(at(9), 0, once(5)).is_ok());
        simulation.cancel(9);
    }
    let mut expected = step(&mut repeated).unwrap();
    expected.extend(step(&mut repeated).unwrap());
    assert_eq!(
        expected,
        vec![(2, vec![vec![2]]), (5, vec![vec![4], vec![2]])]
    );
    assert_eq!(step_until(&mut until, at(7)).unwrap(), expected);
    assert_eq!(until.time().as_secs(), 7);
    assert_eq!(repeated.time().as_secs(), 5);
    // The same actions remain.
    assert_eq!(
        step(&mut until).unwrap(),
        vec![(8, vec![vec![2]])]
    );
    assert_eq!(
        step(&mut repeated).unwrap(),
        vec![(8, vec![vec![2]])]
    );
}

#[test]
fn step_until_refuses_a_past_target() {
    let mut simulation = bench(None);
    assert_eq!(step_until(&mut simulation, at(3)).unwrap(), vec![]);
    match step_until(&mut simulation, at(2)) {
        Err(ExecutionError::InvalidDeadline(time)) => assert_eq!(time.as_secs(), 2),
        _ => panic!(),
    }
    // This is not fatal.
    assert_eq!(simulation.time().as_secs(), 3);
    assert!(step(&mut simulation).is_ok());
}

#[test]
fn scheduling_in_the_past_is_refused() {
    let mut simulation = bench(None);
    assert_eq!(
        simulation.schedule(at(0), 0, once(1)),
        Err(SchedulingError::InvalidScheduledTime)
    );
    assert_eq!(
        simulation.schedule(at(-1), 0, once(1)),
        Err(SchedulingError::InvalidScheduledTime)
    );
    assert_eq!(
        simulation.schedule(at(1), 0, periodic(1, 0)),
        Err(SchedulingError::NullRepetitionPeriod)
    );
    assert_eq!(step(&mut simulation).unwrap(), vec![]);
}

#[test]
fn out_of_sync_beyond_tolerance_is_fatal() {
    let mut simulation = bench(Some(Duration::new(0, 10)));
    for i in 1..4 {
        assert!(simulation.schedule(at(i), 0, once(i as u64)).is_ok());
    }
    // A lag within tolerance is accepted.
    assert!(matches!(simulation.step(), Ok(Command::Step(_))));
    assert!(matches!(
        simulation.synchronized(SyncStatus::OutOfSync(Duration::new(0, 10))),
        Ok(Command::Run(_))
    ));
    assert!(matches!(
        simulation.executed(Ok(()), &vec![0, 0, 0], None),
        Ok(Command::Done)
    ));
    assert!(matches!(simulation.step(), Ok(Command::Step(_))));
    match simulation.synchronized(SyncStatus::OutOfSync(Duration::new(0, 11))) {
        Err(ExecutionError::OutOfSync(lag)) => assert_eq!(lag.subsec_nanos(), 11),
        _ => panic!(),
    }
    // Any subsequent attempt to run the simulation fails.
    assert!(matches!(simulation.step(), Err(ExecutionError::Terminated)));
    assert!(matches!(
        simulation.step_until(at(0)),
        Err(ExecutionError::Terminated)
    ));
    assert!(matches!(
        simulation.process(),
        Err(ExecutionError::Terminated)
    ));
    assert!(matches!(
        simulation.process_event(),
        Err(ExecutionError::Terminated)
    ));
    assert!(matches!(
        simulation.process_query(),
        Err(ExecutionError::Terminated)
    ));
}

#[test]
fn lag_is_ignored_without_tolerance() {
    let mut simulation = bench(None);
    assert!(simulation.schedule(at(1), 0, once(1)).is_ok());
    assert!(matches!(simulation.step(), Ok(Command::Step(_))));
    assert!(matches!(
        simulation.synchronized(SyncStatus::OutOfSync(Duration::new(1000, 0))),
        Ok(Command::Run(_))
    ));
}

#[test]
fn deadlock_is_reported() {
    let mut simulation = bench(None);
    assert!(matches!(simulation.process(), Ok(Command::Run(_))));
    match simulation.executed(Err(ExecutorError::Deadlock), &vec![0, 2, 1], None) {
        Err(ExecutionError::Deadlock(list)) => {
            assert_eq!(
                list,
                vec![
                    DeadlockInfo {
                        model: "beta".to_string(),
                        mailbox_size: 2
                    },
                    DeadlockInfo {
                        model: "gamma".to_string(),
                        mailbox_size: 1
                    }
                ]
            );
        }
        _ => panic!(),
    }
    assert!(matches!(
        simulation.process(),
        Err(ExecutionError::Terminated)
    ));
}

#[test]
fn null_timeout_is_disabled() {
    let mut simulation = bench(None);
    simulation.set_timeout(Duration::new(0, 0));
    assert!(matches!(simulation.process(), Ok(Command::Run(None))));
    assert!(simulation.executed(Ok(()), &vec![0, 0, 0], None).is_ok());
    simulation.set_timeout(Duration::new(0, 1));
    match simulation.process() {
        Ok(Command::Run(timeout)) => assert_eq!(timeout.unwrap().subsec_nanos(), 1),
        _ => panic!(),
    }
}

#[test]
fn timeout_is_reported() {
    let mut simulation = bench(None);
    simulation.set_timeout(Duration::new(3, 0));
    match simulation.process() {
        Ok(Command::Run(timeout)) => assert_eq!(timeout.unwrap().as_secs(), 3),
        _ => panic!(),
    }
    assert!(matches!(
        simulation.executed(Err(ExecutorError::Timeout), &vec![0, 0, 0], None),
        Err(ExecutionError::Timeout)
    ));
    assert!(matches!(simulation.step(), Err(ExecutionError::Terminated)));
}

#[test]
fn panic_is_reported_with_the_name_of_the_model() {
    let mut simulation = bench(None);
    assert!(matches!(simulation.process_event(), Ok(Command::Run(_))));
    let outcome = Err(ExecutorError::Panic(ModelId::new(1), 99));
    match simulation.executed(outcome, &vec![0, 0, 0], Some("ouch".to_string())) {
        Err(ExecutionError::Panic { model, payload }) => {
            assert_eq!(model, "beta");
            assert_eq!(payload.id, 99);
            assert_eq!(payload.message, Some("ouch".to_string()));
        }
        _ => panic!(),
    }
    assert!(matches!(simulation.step(), Err(ExecutionError::Terminated)));
}

#[test]
fn internal_panic_terminates_the_simulation() {
    let mut simulation = bench(None);
    assert!(simulation.schedule(at(5), 0, once(1)).is_ok());
    assert!(matches!(simulation.process(), Ok(Command::Run(_))));
    simulation.terminate();
    assert!(matches!(simulation.phase(), Phase::Idle));
    assert!(matches!(simulation.step(), Err(ExecutionError::Terminated)));
}

#[test]
fn query_replies() {
    let mut simulation = bench(None);
    assert!(matches!(simulation.process_query(), Ok(Command::Run(_))));
    assert!(matches!(simulation.phase(), Phase::Running { target: None }));
    assert!(matches!(
        simulation.executed(Ok(()), &vec![0, 0, 0], None),
        Ok(Command::Done)
    ));
    assert!(matches!(simulation.phase(), Phase::Idle));
    assert!(matches!(simulation.query_reply(Some(5)), Ok(5)));
    assert!(matches!(
        simulation.query_reply::<u32>(None),
        Err(ExecutionError::BadQuery)
    ));
}

#[test]
fn repetition_beyond_the_latest_time_is_detected() {
    let mut simulation = bench(None);
    assert!(simulation.schedule(at(1), 0, once(1)).is_ok());
    assert!(simulation
        .schedule(MonotonicTime::max(), 0, periodic(2, 1))
        .is_ok());
    // The next action is not periodic.
    assert!(simulation.is_repeatable(&MonotonicTime::max()));
    assert!(step(&mut simulation).is_ok());
    assert!(!simulation.is_repeatable(&MonotonicTime::max()));
    assert!(simulation.is_repeatable(&at(100)));
}

#[test]
fn error_texts() {
    assert_eq!(
        ExecutionError::Terminated.to_text(),
        "the simulation has been terminated"
    );
    assert_eq!(
        ExecutionError::Deadlock(vec![
            DeadlockInfo {
                model: "a.b".to_string(),
                mailbox_size: 1
            },
            DeadlockInfo {
                model: "c".to_string(),
                mailbox_size: 120
            }
        ])
        .to_text(),
        "a simulation deadlock has been detected that involves the following models: \
         'a.b' (1 item in mailbox), 'c' (120 items in mailbox)"
    );
    assert_eq!(
        ExecutionError::Panic {
            model: "m".to_string(),
            payload: PanicPayload {
                id: 0,
                message: None
            }
        }
        .to_text(),
        "model 'm' has panicked"
    );
    assert_eq!(
        ExecutionError::Panic {
            model: "m".to_string(),
            payload: PanicPayload {
                id: 0,
                message: Some("oh no".to_string())
            }
        }
        .to_text(),
        "model 'm' has panicked with the message: 'oh no'"
    );
    assert_eq!(
        ExecutionError::Timeout.to_text(),
        "the simulation step has failed to complete within the allocated time"
    );
    assert_eq!(
        ExecutionError::OutOfSync(Duration::new(1, 500_000_000)).to_text(),
        "the simulation has lost synchronization and lags behind the clock by '1.5s'"
    );
    assert_eq!(
        ExecutionError::BadQuery.to_text(),
        "the query did not return any response; was the target mailbox added to the simulation?"
    );
    assert_eq!(
        ExecutionError::InvalidDeadline(at(0)).to_text(),
        "the specified deadline (1970-01-01 00:00:00) lies in the past of the current simulation time"
    );
    assert_eq!(
        SimulationError::from(ExecutionError::Timeout).to_text(),
        "the simulation step has failed to complete within the allocated time"
    );
    assert_eq!(
        SimulationError::from(SchedulingError::NullRepetitionPeriod).to_text(),
        "the repetition period cannot be zero"
    );
    assert_eq!(
        SchedulingError::InvalidScheduledTime.to_text(),
        "the scheduled time should be in the future of the current simulation time"
    );
}

#[test]
fn model_names_and_identifiers() {
    let mut names = Vec::new();
    let root = add_model(&mut names, "parent".to_string());
    assert_eq!(root.get(), Some(0));

    let context = Context::new("parent".to_string());
    assert_eq!(context.name(), "parent");
    let build_context = BuildContext::new(&context);
    assert_eq!(build_context.name(), "parent");
    assert_eq!(build_context.qualified_name("child"), "parent.child");
    assert_eq!(build_context.qualified_name(""), "parent.<unknown>");
    let child = build_context.add_submodel("child".to_string(), &mut names);
    let unnamed = build_context.add_submodel(String::new(), &mut names);
    assert_eq!(child.get(), Some(1));
    assert_eq!(unnamed.get(), Some(2));
    assert_eq!(names, vec!["parent", "parent.child", "parent.<unknown>"]);
}

#[test]
fn model_identifiers() {
    assert_eq!(ModelId::none().get(), None);
    assert_eq!(ModelId::default().get(), None);
    assert_eq!(ModelId::new(5).get(), Some(5));

    let mut current = ModelId::none();
    let mut future = ModelFuture::new(10, ModelId::new(3));
    *future.enter(&mut current) += 1;
    assert_eq!(current.get(), Some(3));
    leave_model(&mut current);
    assert_eq!(current.get(), None);
    assert_eq!(*future.enter(&mut current), 11);
}
