//! Simulation services.

pub mod controller_service;
pub mod init_service;
pub mod monitor_service;

use vstd::prelude::*;
use vstd::string::StringExecFns;

use super::message::{CodecError, Deadline, Error, ErrorCode, TimeSpan, Timestamp};
use crate::simulation::error::ExecutionError;
use crate::simulation::scheduler::SchedulingError;
use crate::time::{max_instant, Duration, MonotonicTime, NANOS_PER_SEC};

verus! {

/// Unix timestamp for 0001-01-01 00:00:00, the minimum accepted by protobuf's
/// specification for the `Timestamp` type.
pub const MIN_SECS: i64 = -62135596800;

/// Unix timestamp for 9999-12-31 23:59:59, the maximum accepted by protobuf's
/// specification for the `Timestamp` type.
pub const MAX_SECS: i64 = 253402300799;

/// Transforms an error code and a message into an error.
pub fn to_error(code: ErrorCode, message: &str) -> (error: Error)
    ensures
        error.says(code, message@),
{
    Error { code, message: message.to_owned() }
}

/// A message that is completed with a quoted name.
pub open spec fn with_name(message: Seq<char>, name: Seq<char>) -> Seq<char> {
    message + " '"@ + name + "'"@
}

/// Transforms an error code, a message and the name that completes the message
/// into an error.
pub(crate) fn to_error_with_name(code: ErrorCode, message: &str, name: &str) -> (error: Error)
    ensures
        error.says(code, with_name(message@, name@)),
{
    let mut text = message.to_owned();
    text.append(" '");
    text.append(name);
    text.append("'");
    Error { code, message: text }
}

/// An error returned when a simulation was not started.
pub fn simulation_not_started_error() -> (error: Error)
    ensures
        not_started(error),
{
    to_error(ErrorCode::SimulationNotStarted, "the simulation was not started")
}

/// Whether an error tells that the simulation was not started.
pub open spec fn not_started(error: Error) -> bool {
    error.says(ErrorCode::SimulationNotStarted, "the simulation was not started"@)
}

/// The code of the error that stands for an execution error.
pub open spec fn execution_error_code(error: ExecutionError) -> ErrorCode {
    match error {
        ExecutionError::Deadlock(_) => ErrorCode::SimulationDeadlock,
        ExecutionError::Panic { .. } => ErrorCode::SimulationPanic,
        ExecutionError::Timeout => ErrorCode::SimulationTimeout,
        ExecutionError::OutOfSync(_) => ErrorCode::SimulationOutOfSync,
        ExecutionError::BadQuery => ErrorCode::SimulationBadQuery,
        ExecutionError::Terminated => ErrorCode::SimulationTerminated,
        ExecutionError::InvalidDeadline(_) => ErrorCode::InvalidDeadline,
    }
}

/// Maps an `ExecutionError` to an error.
pub fn map_execution_error(error: ExecutionError) -> (e: Error)
    ensures
        e.says(execution_error_code(error), error.text()),
{
    let message = error.to_text();
    let code = match error {
        ExecutionError::Deadlock(_) => ErrorCode::SimulationDeadlock,
        ExecutionError::Panic { .. } => ErrorCode::SimulationPanic,
        ExecutionError::Timeout => ErrorCode::SimulationTimeout,
        ExecutionError::OutOfSync(_) => ErrorCode::SimulationOutOfSync,
        ExecutionError::BadQuery => ErrorCode::SimulationBadQuery,
        ExecutionError::Terminated => ErrorCode::SimulationTerminated,
        ExecutionError::InvalidDeadline(_) => ErrorCode::InvalidDeadline,
    };
    to_error(code, message.as_str())
}

/// The code of the error that stands for a scheduling error.
pub open spec fn scheduling_error_code(error: SchedulingError) -> ErrorCode {
    match error {
        SchedulingError::InvalidScheduledTime => ErrorCode::InvalidDeadline,
        SchedulingError::NullRepetitionPeriod => ErrorCode::InvalidPeriod,
    }
}

/// Maps a `SchedulingError` to an error.
pub fn map_scheduling_error(error: SchedulingError) -> (e: Error)
    ensures
        e.says(scheduling_error_code(error), error.text()),
{
    let code = match error {
        SchedulingError::InvalidScheduledTime => ErrorCode::InvalidDeadline,
        SchedulingError::NullRepetitionPeriod => ErrorCode::InvalidPeriod,
    };
    to_error(code, error.to_text().as_str())
}

/// Whether an instant lies in the range of timestamps.
pub open spec fn in_range(instant: int) -> bool {
    MIN_SECS * NANOS_PER_SEC <= instant < (MAX_SECS + 1) * NANOS_PER_SEC
}

/// The instant at which a timestamp lies.
pub open spec fn instant(timestamp: Timestamp) -> int {
    timestamp.seconds * NANOS_PER_SEC + timestamp.nanos
}

/// Whether the nanosecond part of a timestamp is valid.
pub open spec fn is_timestamp(timestamp: Timestamp) -> bool {
    0 <= timestamp.nanos < NANOS_PER_SEC
}

/// Attempts a cast from a `MonotonicTime` to a `Timestamp`.
///
/// This will fail if the time is outside the protobuf-specified range for
/// timestamps (0001-01-01 00:00:00 to 9999-12-31 23:59:59).
pub fn monotonic_to_timestamp(monotonic_time: MonotonicTime) -> (timestamp: Option<Timestamp>)
    ensures
        timestamp is Some <==> in_range(monotonic_time@),
        timestamp is Some ==> is_timestamp(timestamp->Some_0) && instant(timestamp->Some_0)
            == monotonic_time@,
{
    let secs: i64 = monotonic_time.as_secs();
    if !(MIN_SECS <= secs && secs <= MAX_SECS) {
        return None;
    }
    Some(Timestamp { seconds: secs, nanos: monotonic_time.subsec_nanos() as i32 })
}

/// Attempts a cast from a `Timestamp` to a `MonotonicTime`.
///
/// This should never fail provided that the `Timestamp` complies with the
/// protobuf specification. It can only fail if the nanosecond part is negative
/// or greater than 999'999'999.
pub fn timestamp_to_monotonic(timestamp: Timestamp) -> (time: Option<MonotonicTime>)
    ensures
        time is Some <==> is_timestamp(timestamp),
        time is Some ==> time->Some_0@ == instant(timestamp) && time->Some_0.wf(),
{
    if timestamp.nanos < 0 {
        return None;
    }
    MonotonicTime::new(timestamp.seconds, timestamp.nanos as u32)
}

/// Whether a time span is not negative.
pub open spec fn is_positive(span: TimeSpan) -> bool {
    span.seconds >= 0 && span.nanos >= 0
}

/// Whether a time span is neither negative nor null.
pub open spec fn is_strictly_positive(span: TimeSpan) -> bool {
    is_positive(span) && (span.seconds > 0 || span.nanos > 0)
}

/// The length of a time span, in nanoseconds.
pub open spec fn length(span: TimeSpan) -> int {
    span.seconds * NANOS_PER_SEC + span.nanos
}

/// Attempts a cast from a `TimeSpan` to a `Duration`.
///
/// If the span complies with the protobuf specification for durations, this can
/// only fail if it is negative.
pub fn to_positive_duration(duration: TimeSpan) -> (d: Option<Duration>)
    ensures
        d is Some <==> is_positive(duration),
        d is Some ==> d->Some_0@ == length(duration),
{
    if duration.seconds < 0 || duration.nanos < 0 {
        return None;
    }
    Some(Duration::new(duration.seconds as u64, duration.nanos as u32))
}

/// Attempts a cast from a `TimeSpan` to a strictly positive `Duration`.
///
/// If the span complies with the protobuf specification for durations, this can
/// only fail if it is negative or null.
pub fn to_strictly_positive_duration(duration: TimeSpan) -> (d: Option<Duration>)
    ensures
        d is Some <==> is_strictly_positive(duration),
        d is Some ==> d->Some_0@ == length(duration) && d->Some_0@ > 0,
{
    if duration.seconds < 0 || duration.nanos < 0 || (duration.seconds == 0 && duration.nanos == 0) {
        return None;
    }
    Some(Duration::new(duration.seconds as u64, duration.nanos as u32))
}

/// A timestamp survives a cast to `MonotonicTime` and back.
pub proof fn law_timestamp_round_trip(timestamp: Timestamp, time: MonotonicTime, back: Timestamp)
    requires
        is_timestamp(timestamp),
        // The cast to `MonotonicTime`.
        time@ == instant(timestamp),
        // The cast back.
        is_timestamp(back),
        instant(back) == time@,
    ensures
        back == timestamp,
{
}

/// A time in the range of timestamps survives a cast to `Timestamp` and back.
pub proof fn law_monotonic_round_trip(time: MonotonicTime, timestamp: Timestamp, back: MonotonicTime)
    requires
        time.wf(),
        // The cast to `Timestamp`.
        instant(timestamp) == time@,
        // The cast back.
        back.wf(),
        back@ == instant(timestamp),
    ensures
        back == time,
{
    time.lemma_view_is_injective(back);
}

/// The instant of a deadline, given the current simulation time.
pub open spec fn deadline_instant(deadline: Deadline, now: int) -> int {
    match deadline {
        Deadline::Time(timestamp) => instant(timestamp),
        Deadline::Duration(span) => now + length(span),
    }
}

/// Whether a deadline, if it is valid, does not lie beyond the latest instant.
pub open spec fn is_reachable(deadline: Option<Deadline>, now: int) -> bool {
    match deadline {
        Some(Deadline::Duration(span)) => is_positive(span) ==> now + length(span)
            <= max_instant(),
        _ => true,
    }
}

/// Checks that a deadline, if it is valid, does not lie beyond the latest
/// instant.
pub fn check_reachable(deadline: &Option<Deadline>, now: &MonotonicTime) -> (r: bool)
    ensures
        r == is_reachable(*deadline, now@),
{
    match deadline {
        Some(Deadline::Duration(span)) => match to_positive_duration(*span) {
            Some(duration) => now.checked_add(&duration).is_some(),
            None => true,
        },
        _ => true,
    }
}

/// The outcome of a request for the time of the simulation.
pub open spec fn time_result(now: MonotonicTime, result: Result<Timestamp, Error>) -> bool {
    match result {
        Ok(timestamp) => in_range(now@) && is_timestamp(timestamp) && instant(timestamp) == now@,
        Err(e) => !in_range(now@) && e.says(
            ErrorCode::SimulationTimeOutOfRange,
            "the final simulation time is out of range"@,
        ),
    }
}

/// Reports the simulation time.
pub fn report_time(now: MonotonicTime) -> (result: Result<Timestamp, Error>)
    ensures
        time_result(now, result),
{
    match monotonic_to_timestamp(now) {
        Some(timestamp) => Ok(timestamp),
        None => Err(
            to_error(
                ErrorCode::SimulationTimeOutOfRange,
                "the final simulation time is out of range",
            ),
        ),
    }
}

/// The reason for refusing the target time of a simulation, if any.
pub open spec fn target_refusal(deadline: Option<Deadline>) -> Option<(ErrorCode, Seq<char>)> {
    match deadline {
        None => Some((ErrorCode::MissingArgument, "missing deadline argument"@)),
        Some(Deadline::Time(timestamp)) => if is_timestamp(timestamp) {
            None
        } else {
            Some((ErrorCode::InvalidTime, "out-of-range nanosecond field"@))
        },
        Some(Deadline::Duration(span)) => if is_positive(span) {
            None
        } else {
            Some((ErrorCode::InvalidDuration, "the specified deadline lies in the past"@))
        },
    }
}

/// Determines the target time of a simulation.
///
/// A deadline that is relative to the current simulation time may not lie beyond
/// the latest instant.
pub fn check_target(deadline: Option<Deadline>, now: &MonotonicTime) -> (result: Result<
    MonotonicTime,
    Error,
>)
    requires
        is_reachable(deadline, now@),
    ensures
        match result {
            Ok(time) => {
                &&& target_refusal(deadline) is None
                &&& time@ == deadline_instant(deadline->Some_0, now@)
                &&& time.wf()
            },
            Err(e) => target_refusal(deadline) == Some((e.code, e.message@)),
        },
{
    match deadline {
        None => Err(to_error(ErrorCode::MissingArgument, "missing deadline argument")),
        Some(Deadline::Time(timestamp)) => match timestamp_to_monotonic(timestamp) {
            Some(time) => Ok(time),
            None => Err(to_error(ErrorCode::InvalidTime, "out-of-range nanosecond field")),
        },
        Some(Deadline::Duration(span)) => match to_positive_duration(span) {
            Some(duration) => match now.checked_add(&duration) {
                Some(time) => Ok(time),
                None => Ok(*now),
            },
            None => Err(
                to_error(ErrorCode::InvalidDuration, "the specified deadline lies in the past"),
            ),
        },
    }
}

/// The reason for refusing the time of an event, if any.
pub open spec fn deadline_refusal(deadline: Option<Deadline>) -> Option<(ErrorCode, Seq<char>)> {
    match deadline {
        None => Some((ErrorCode::MissingArgument, "missing deadline argument"@)),
        Some(Deadline::Time(timestamp)) => if is_timestamp(timestamp) {
            None
        } else {
            Some((ErrorCode::InvalidTime, "out-of-range nanosecond field"@))
        },
        Some(Deadline::Duration(span)) => if is_strictly_positive(span) {
            None
        } else {
            Some(
                (
                    ErrorCode::InvalidDuration,
                    "the specified scheduling deadline is not in the future"@,
                ),
            )
        },
    }
}

/// Determines the time of an event.
///
/// A deadline that is relative to the current simulation time may not lie beyond
/// the latest instant.
pub fn check_deadline(deadline: Option<Deadline>, now: &MonotonicTime) -> (result: Result<
    MonotonicTime,
    Error,
>)
    requires
        is_reachable(deadline, now@),
    ensures
        match result {
            Ok(time) => {
                &&& deadline_refusal(deadline) is None
                &&& time@ == deadline_instant(deadline->Some_0, now@)
                &&& time.wf()
            },
            Err(e) => deadline_refusal(deadline) == Some((e.code, e.message@)),
        },
{
    match deadline {
        None => Err(to_error(ErrorCode::MissingArgument, "missing deadline argument")),
        Some(Deadline::Time(timestamp)) => match timestamp_to_monotonic(timestamp) {
            Some(time) => Ok(time),
            None => Err(to_error(ErrorCode::InvalidTime, "out-of-range nanosecond field")),
        },
        Some(Deadline::Duration(span)) => match to_strictly_positive_duration(span) {
            Some(duration) => match now.checked_add(&duration) {
                Some(time) => Ok(time),
                None => Ok(*now),
            },
            None => Err(
                to_error(
                    ErrorCode::InvalidDuration,
                    "the specified scheduling deadline is not in the future",
                ),
            ),
        },
    }
}

/// Whether a period is the requested one.
pub open spec fn is_period(requested: Option<TimeSpan>, period: Option<Duration>) -> bool {
    match (requested, period) {
        (Some(span), Some(period)) => is_strictly_positive(span) && period@ == length(span),
        (None, None) => true,
        _ => false,
    }
}

/// Whether an error tells that a period is not valid.
pub open spec fn bad_period(error: Error) -> bool {
    error.says(
        ErrorCode::InvalidDuration,
        "the specified event period is not strictly positive"@,
    )
}

/// Determines the period of an event.
pub fn check_period(period: Option<TimeSpan>) -> (result: Result<Option<Duration>, Error>)
    ensures
        match result {
            Ok(duration) => is_period(period, duration),
            Err(e) => period is Some && !is_strictly_positive(period->Some_0) && bad_period(e),
        },
{
    match period {
        None => Ok(None),
        Some(span) => match to_strictly_positive_duration(span) {
            Some(duration) => Ok(Some(duration)),
            None => Err(
                to_error(
                    ErrorCode::InvalidDuration,
                    "the specified event period is not strictly positive",
                ),
            ),
        },
    }
}

/// The description of a decoding or encoding failure, which tells the type of
/// the message and, if it is detailed, the reason for the failure.
pub open spec fn codec_text(what: Seq<char>, error: CodecError, detailed: bool) -> Seq<char> {
    let text = what + " '"@ + error.message_type@ + "'"@;
    if detailed {
        text + ": "@ + error.description@
    } else {
        text
    }
}

/// Describes a decoding or encoding failure by the type of the message and, if
/// details are requested, by the reason for the failure.
pub fn codec_error(what: &str, error: &CodecError, detailed: bool) -> (e: Error)
    ensures
        e.says(ErrorCode::InvalidMessage, codec_text(what@, *error, detailed)),
{
    let mut message = what.to_owned();
    message.append(" '");
    message.append(error.message_type.as_str());
    message.append("'");
    if detailed {
        message.append(": ");
        message.append(error.description.as_str());
    }
    Error { code: ErrorCode::InvalidMessage, message }
}

/// Checks the form of the target time of a simulation.
pub fn check_target_form(deadline: &Option<Deadline>) -> (result: Result<(), Error>)
    ensures
        match result {
            Ok(_) => target_refusal(*deadline) is None,
            Err(e) => target_refusal(*deadline) == Some((e.code, e.message@)),
        },
{
    match deadline {
        None => Err(to_error(ErrorCode::MissingArgument, "missing deadline argument")),
        Some(Deadline::Time(timestamp)) => if timestamp_to_monotonic(*timestamp).is_some() {
            Ok(())
        } else {
            Err(to_error(ErrorCode::InvalidTime, "out-of-range nanosecond field"))
        },
        Some(Deadline::Duration(span)) => if to_positive_duration(*span).is_some() {
            Ok(())
        } else {
            Err(to_error(ErrorCode::InvalidDuration, "the specified deadline lies in the past"))
        },
    }
}

/// A deadline lies exactly at the time that it tells or, if it is relative, after the
/// whole time span that it tells, nanoseconds included. A deadline cannot be reached
/// if it is relative and lies beyond the latest instant.
pub proof fn law_deadlines(deadline: Deadline, now: int)
    ensures
        match deadline {
            Deadline::Time(timestamp) => deadline_instant(deadline, now) == timestamp.seconds
                * 1_000_000_000 + timestamp.nanos,
            Deadline::Duration(span) => deadline_instant(deadline, now) == now + span.seconds
                * 1_000_000_000 + span.nanos,
        },
        is_reachable(Some(deadline), now) <==> match deadline {
            Deadline::Time(_) => true,
            Deadline::Duration(span) => span.seconds < 0 || span.nanos < 0 || now + span.seconds
                * 1_000_000_000 + span.nanos <= i64::MAX * 1_000_000_000 + 999_999_999,
        },
        is_reachable(None, now),
{
}

/// A relative deadline lies as far from the current time as its time span is long, and
/// moves along with both: a nanosecond more makes a deadline that lies a nanosecond later.
pub proof fn law_relative_deadlines(span: TimeSpan, other: TimeSpan, now: int, shift: int)
    ensures
        deadline_instant(Deadline::Duration(span), now) == now + length(span),
        deadline_instant(Deadline::Duration(span), now + shift) == deadline_instant(
            Deadline::Duration(span),
            now,
        ) + shift,
        deadline_instant(Deadline::Duration(other), now) - deadline_instant(
            Deadline::Duration(span),
            now,
        ) == (other.seconds - span.seconds) * 1_000_000_000 + (other.nanos - span.nanos),
{
}

/// The target time of a simulation is refused if it is missing, if its nanosecond
/// field is out of range or if it is a negative time span, and is accepted otherwise.
pub proof fn law_refused_targets(deadline: Option<Deadline>)
    ensures
        match deadline {
            None => target_refusal(deadline) == Some(
                (ErrorCode::MissingArgument, "missing deadline argument"@),
            ),
            Some(Deadline::Time(timestamp)) => target_refusal(deadline) == if timestamp.nanos < 0
                || timestamp.nanos > 999_999_999 {
                Some((ErrorCode::InvalidTime, "out-of-range nanosecond field"@))
            } else {
                None
            },
            Some(Deadline::Duration(span)) => target_refusal(deadline) == if span.seconds < 0
                || span.nanos < 0 {
                Some((ErrorCode::InvalidDuration, "the specified deadline lies in the past"@))
            } else {
                None
            },
        },
{
}

/// The time of an event is refused if it is missing, if its nanosecond field is out of
/// range or if it is a negative or null time span, and is accepted otherwise.
pub proof fn law_refused_deadlines(deadline: Option<Deadline>)
    ensures
        match deadline {
            None => deadline_refusal(deadline) == Some(
                (ErrorCode::MissingArgument, "missing deadline argument"@),
            ),
            Some(Deadline::Time(timestamp)) => deadline_refusal(deadline) == if timestamp.nanos
                < 0 || timestamp.nanos > 999_999_999 {
                Some((ErrorCode::InvalidTime, "out-of-range nanosecond field"@))
            } else {
                None
            },
            Some(Deadline::Duration(span)) => deadline_refusal(deadline) == if span.seconds < 0
                || span.nanos < 0 || span.seconds == 0 && span.nanos == 0 {
                Some(
                    (
                        ErrorCode::InvalidDuration,
                        "the specified scheduling deadline is not in the future"@,
                    ),
                )
            } else {
                None
            },
        },
{
}

/// A period is the whole time span that was requested, nanoseconds included, which is
/// neither negative nor null.
pub proof fn law_periods(requested: Option<TimeSpan>, period: Option<Duration>)
    ensures
        is_period(requested, period) <==> match (requested, period) {
            (Some(span), Some(period)) => {
                &&& span.seconds >= 0
                &&& span.nanos >= 0
                &&& span.seconds > 0 || span.nanos > 0
                &&& period@ == span.seconds * 1_000_000_000 + span.nanos
            },
            (None, None) => true,
            _ => false,
        },
{
}

/// Time spans that are not negative are durations of the same length, and those that
/// are not null either can be periods.
pub proof fn law_time_spans(span: TimeSpan)
    ensures
        length(span) == span.seconds * 1_000_000_000 + span.nanos,
        is_positive(span) <==> span.seconds >= 0 && span.nanos >= 0,
        is_strictly_positive(span) <==> is_positive(span) && length(span) > 0,
{
}

/// The simulation time is reported exactly if it lies between the years 1 and 9999,
/// and an error is reported otherwise.
pub proof fn law_reported_time(now: MonotonicTime, result: Result<Timestamp, Error>)
    requires
        time_result(now, result),
    ensures
        result is Ok <==> -62_135_596_800 * 1_000_000_000 <= now@ <= 253_402_300_799
            * 1_000_000_000 + 999_999_999,
        result matches Ok(timestamp) ==> {
            &&& now@ == timestamp.seconds * 1_000_000_000 + timestamp.nanos
            &&& 0 <= timestamp.nanos <= 999_999_999
        },
        result matches Err(e) ==> e.code == ErrorCode::SimulationTimeOutOfRange && e.message@
            == "the final simulation time is out of range"@,
{
}

/// Timestamps are valid if and only if their nanosecond field does not amount to a
/// second or more, and lie at the instant that their two fields tell.
pub proof fn law_timestamps(timestamp: Timestamp, time: int)
    ensures
        is_timestamp(timestamp) <==> 0 <= timestamp.nanos <= 999_999_999,
        instant(timestamp) == timestamp.seconds * 1_000_000_000 + timestamp.nanos,
        in_range(time) <==> -62_135_596_800 * 1_000_000_000 <= time <= 253_402_300_799
            * 1_000_000_000 + 999_999_999,
{
}

/// Each kind of failure has its own error code.
pub proof fn law_error_codes(error: ExecutionError, other: ExecutionError)
    ensures
        match execution_error_code(error) {
            ErrorCode::SimulationDeadlock => error is Deadlock,
            ErrorCode::SimulationPanic => error is Panic,
            ErrorCode::SimulationTimeout => error is Timeout,
            ErrorCode::SimulationOutOfSync => error is OutOfSync,
            ErrorCode::SimulationBadQuery => error is BadQuery,
            ErrorCode::SimulationTerminated => error is Terminated,
            ErrorCode::InvalidDeadline => error is InvalidDeadline,
            _ => false,
        },
        scheduling_error_code(SchedulingError::InvalidScheduledTime) == ErrorCode::InvalidDeadline,
        scheduling_error_code(SchedulingError::NullRepetitionPeriod) == ErrorCode::InvalidPeriod,
{
}

/// Error messages: a name is quoted after the message, and so is the type of a message
/// that could not be decoded or encoded, followed by the reason if it is detailed.
pub proof fn law_messages(what: Seq<char>, name: Seq<char>, error: CodecError)
    ensures
        with_name(what, name) == what + seq![' ', '\''] + name + seq!['\''],
        codec_text(what, error, false) == what + seq![' ', '\''] + error.message_type@ + seq![
            '\'',
        ],
        codec_text(what, error, true) == what + seq![' ', '\''] + error.message_type@ + seq![
            '\'',
            ':',
            ' ',
        ] + error.description@,
{
    reveal_strlit(" '");
    reveal_strlit("'");
    reveal_strlit(": ");
    assert(" '"@ =~= seq![' ', '\'']);
    assert("'"@ =~= seq!['\'']);
    assert(": "@ =~= seq![':', ' ']);
    assert(codec_text(what, error, true) =~= what + seq![' ', '\''] + error.message_type@ + seq![
        '\'',
        ':',
        ' ',
    ] + error.description@);
}

/// The errors returned when there is no simulation or when a period is not valid, and what
/// it is for an error to have a code and a message.
pub proof fn law_service_errors(error: Error, code: ErrorCode, message: Seq<char>)
    ensures
        error.says(code, message) <==> error.code == code && error.message@ == message,
        not_started(error) <==> error.code == ErrorCode::SimulationNotStarted && error.message@
            == "the simulation was not started"@,
        bad_period(error) <==> error.code == ErrorCode::InvalidDuration && error.message@
            == "the specified event period is not strictly positive"@,
{
}

} // verus!
