//! Messages exchanged with remote clients.

use vstd::prelude::*;

verus! {

/// A point in time, given as a Unix timestamp.
#[derive(Clone, Copy, Debug, PartialEq, Eq, Structural)]
pub struct Timestamp {
    /// Number of seconds since the epoch.
    pub seconds: i64,
    /// Non-negative fractions of a second at nanosecond resolution.
    pub nanos: i32,
}

impl Default for Timestamp {
    fn default() -> (timestamp: Self)
        ensures
            timestamp.seconds == 0,
            timestamp.nanos == 0,
    {
        Timestamp { seconds: 0, nanos: 0 }
    }
}

/// A signed span of time.
#[derive(Clone, Copy, Debug, PartialEq, Eq, Structural)]
pub struct TimeSpan {
    /// Number of seconds.
    pub seconds: i64,
    /// Fractions of a second at nanosecond resolution.
    pub nanos: i32,
}

/// A deadline, which is either absolute or relative to the current simulation
/// time.
#[derive(Clone, Copy, Debug, PartialEq, Eq, Structural)]
pub enum Deadline {
    /// An absolute deadline.
    Time(Timestamp),
    /// A relative deadline.
    Duration(TimeSpan),
}

/// The key of a scheduled event.
#[derive(Clone, Copy, Debug, PartialEq, Eq, Structural)]
pub struct EventKey {
    /// First part of the key.
    pub subkey1: u64,
    /// Second part of the key.
    pub subkey2: u64,
}

/// The kind of an error.
#[derive(Clone, Copy, Debug, PartialEq, Eq, Structural)]
pub enum ErrorCode {
    /// An internal error has occurred.
    InternalError,
    /// The simulation was not started.
    SimulationNotStarted,
    /// The simulation has been terminated.
    SimulationTerminated,
    /// The simulation has deadlocked.
    SimulationDeadlock,
    /// A model has panicked.
    SimulationPanic,
    /// A simulation step has failed to complete in time.
    SimulationTimeout,
    /// The simulation has lost synchronization with the clock.
    SimulationOutOfSync,
    /// A query did not return any response.
    SimulationBadQuery,
    /// The simulation time cannot be represented.
    SimulationTimeOutOfRange,
    /// A mandatory argument is missing.
    MissingArgument,
    /// A timestamp is not valid.
    InvalidTime,
    /// A duration is not valid.
    InvalidDuration,
    /// A deadline is not valid.
    InvalidDeadline,
    /// A repetition period is not valid.
    InvalidPeriod,
    /// A message could not be decoded or encoded.
    InvalidMessage,
    /// An event key is not valid.
    InvalidKey,
    /// A source was not found.
    SourceNotFound,
    /// A sink was not found.
    SinkNotFound,
}

/// An error.
#[derive(Debug)]
pub struct Error {
    /// The kind of the error.
    pub code: ErrorCode,
    /// A description of the error.
    pub message: String,
}

impl Error {
    /// Whether the error has the given code and message.
    pub open spec fn says(self, code: ErrorCode, message: Seq<char>) -> bool {
        self.code == code && self.message@ == message
    }
}

/// The failure to decode or encode a message.
#[derive(Debug)]
pub struct CodecError {
    /// The type of the message.
    pub message_type: String,
    /// A description of the failure.
    pub description: String,
}

/// A request to start a simulation.
pub struct InitRequest {
    /// The initial simulation time.
    pub time: Option<Timestamp>,
    /// The serialized configuration.
    pub cfg: Vec<u8>,
}

/// A request for the current simulation time.
pub struct TimeRequest {}

/// A request to advance simulation time to that of the next event.
pub struct StepRequest {}

/// A request to advance simulation time until a deadline.
pub struct StepUntilRequest {
    /// The deadline.
    pub deadline: Option<Deadline>,
}

/// A request to schedule an event.
pub struct ScheduleEventRequest {
    /// The name of the event source.
    pub source_name: String,
    /// The serialized event.
    pub event: Vec<u8>,
    /// The repetition period, if any.
    pub period: Option<TimeSpan>,
    /// Whether a key that can be used to cancel the event is requested.
    pub with_key: bool,
    /// The time of the event.
    pub deadline: Option<Deadline>,
}

/// A request to cancel an event.
pub struct CancelEventRequest {
    /// The key of the event.
    pub key: Option<EventKey>,
}

/// A request to process an event immediately.
pub struct ProcessEventRequest {
    /// The name of the event source.
    pub source_name: String,
    /// The serialized event.
    pub event: Vec<u8>,
}

/// A request to process a query immediately.
pub struct ProcessQueryRequest {
    /// The name of the query source.
    pub source_name: String,
    /// The serialized query.
    pub request: Vec<u8>,
}

/// A request to read all events from a sink.
pub struct ReadEventsRequest {
    /// The name of the sink.
    pub sink_name: String,
}

/// A request to open a sink.
pub struct OpenSinkRequest {
    /// The name of the sink.
    pub sink_name: String,
}

/// A request to close a sink.
pub struct CloseSinkRequest {
    /// The name of the sink.
    pub sink_name: String,
}

/// Any request.
pub enum AnyRequest {
    /// Start a simulation.
    InitRequest(InitRequest),
    /// Tell the current simulation time.
    TimeRequest(TimeRequest),
    /// Advance simulation time to that of the next event.
    StepRequest(StepRequest),
    /// Advance simulation time until a deadline.
    StepUntilRequest(StepUntilRequest),
    /// Schedule an event.
    ScheduleEventRequest(ScheduleEventRequest),
    /// Cancel an event.
    CancelEventRequest(CancelEventRequest),
    /// Process an event immediately.
    ProcessEventRequest(ProcessEventRequest),
    /// Process a query immediately.
    ProcessQueryRequest(ProcessQueryRequest),
    /// Read all events from a sink.
    ReadEventsRequest(ReadEventsRequest),
    /// Open a sink.
    OpenSinkRequest(OpenSinkRequest),
    /// Close a sink.
    CloseSinkRequest(CloseSinkRequest),
}

} // verus!
