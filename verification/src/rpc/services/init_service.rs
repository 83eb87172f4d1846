//! Simulation initialization.

use vstd::prelude::*;
use vstd::string::StringExecFns;

use super::{instant, is_timestamp, timestamp_to_monotonic, to_error};
use crate::rpc::message::{Error, ErrorCode, InitRequest, Timestamp};
use crate::time::MonotonicTime;

verus! {

/// The requested initial simulation time, which is the epoch by default.
pub open spec fn start_time(request: InitRequest) -> Timestamp {
    match request.time {
        Some(time) => time,
        None => Timestamp { seconds: 0, nanos: 0 },
    }
}

/// What happens when a simulation bench is initialized: the configuration comes
/// first, then the initial simulation time.
pub open spec fn bench_initialized<B, S, F, G>(
    request: InitRequest,
    sim_gen: F,
    start: G,
    result: Result<S, Error>,
) -> bool where F: FnOnce(&Vec<u8>) -> Result<B, String>, G: FnOnce(B, MonotonicTime) -> S {
    exists|generated: Result<B, String>| #[trigger]
        sim_gen.ensures((&request.cfg,), generated) && bench_started(
            request,
            generated,
            start,
            result,
        )
}

/// What happens when a simulation bench is started, once it was generated.
pub open spec fn bench_started<B, S, G>(
    request: InitRequest,
    generated: Result<B, String>,
    start: G,
    result: Result<S, Error>,
) -> bool where G: FnOnce(B, MonotonicTime) -> S {
    match generated {
        Ok(bench) => if is_timestamp(start_time(request)) {
            exists|time: MonotonicTime, started: S| #[trigger]
                start.ensures((bench, time), started) && time@ == instant(start_time(request))
                    && result == Ok::<S, Error>(started)
        } else {
            result is Err && result->Err_0.says(
                ErrorCode::InvalidTime,
                "out-of-range nanosecond field"@,
            )
        },
        Err(description) => result is Err && result->Err_0.says(
            ErrorCode::InvalidMessage,
            "the initialization configuration could not be deserialized: "@ + description@,
        ),
    }
}

/// Initializes a simulation bench based on the specified configuration.
///
/// The first function takes a serialized initialization configuration and
/// creates a bench, or describes the reason why it was not possible. The second
/// one starts the bench at the specified time.
///
/// If the initialization time is not provided, it is the epoch of
/// [`MonotonicTime`] (1970-01-01 00:00:00 TAI).
pub fn init<B, S, F, G>(request: &InitRequest, sim_gen: F, start: G) -> (result: Result<
    S,
    Error,
>) where F: FnOnce(&Vec<u8>) -> Result<B, String>, G: FnOnce(B, MonotonicTime) -> S
    requires
        forall|cfg: &Vec<u8>| sim_gen.requires((cfg,)),
        forall|bench: B, time: MonotonicTime| start.requires((bench, time)),
    ensures
        bench_initialized(*request, sim_gen, start, result),
{
    let time = match request.time {
        Some(time) => time,
        None => Timestamp { seconds: 0, nanos: 0 },
    };
    let generated = sim_gen(&request.cfg);
    match generated {
        Err(description) => {
            let mut message =
                "the initialization configuration could not be deserialized: ".to_owned();
            message.append(description.as_str());
            Err(Error { code: ErrorCode::InvalidMessage, message })
        },
        Ok(bench) => match timestamp_to_monotonic(time) {
            Some(time) => {
                let started = start(bench, time);
                Ok(started)
            },
            None => Err(to_error(ErrorCode::InvalidTime, "out-of-range nanosecond field")),
        },
    }
}

/// A simulation starts at exactly the requested time, or at the epoch if no time is
/// requested. It is not started if the configuration is not accepted or if the
/// nanosecond field of the requested time amounts to a second or more.
///
/// The start time is returned.
pub proof fn law_start_time<B, S, G>(
    request: InitRequest,
    generated: Result<B, String>,
    start: G,
    result: Result<S, Error>,
) -> (time: MonotonicTime) where G: FnOnce(B, MonotonicTime) -> S
    requires
        bench_started(request, generated, start, result),
    ensures
        result is Ok <==> generated is Ok && (request.time matches Some(requested) ==> 0
            <= requested.nanos <= 999_999_999),
        result matches Ok(started) ==> start.ensures((generated->Ok_0, time), started),
        result is Ok ==> time@ == match request.time {
            Some(requested) => requested.seconds * 1_000_000_000 + requested.nanos,
            None => 0,
        },
        result matches Err(e) ==> e.code == if generated is Err {
            ErrorCode::InvalidMessage
        } else {
            ErrorCode::InvalidTime
        },
{
    if result is Ok {
        let (time, _) = choose|time: MonotonicTime, started: S| #[trigger]
            start.ensures((generated->Ok_0, time), started) && time@ == instant(
                start_time(request),
            ) && result == Ok::<S, Error>(started);
        time
    } else {
        MonotonicTime::at(0)
    }
}

} // verus!
