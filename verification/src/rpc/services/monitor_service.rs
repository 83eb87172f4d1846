//! Simulation monitoring.

use vstd::prelude::*;

use super::{
    codec_error, codec_text, not_started, simulation_not_started_error, to_error_with_name,
    with_name,
};
use crate::rpc::message::{
    CloseSinkRequest, CodecError, Error, ErrorCode, OpenSinkRequest, ReadEventsRequest,
};
use crate::rpc::registry::{law_each_item_is_found, law_items_are_found_by_name, Registry};

verus! {

/// Whether an error tells that there is no sink with the given name.
pub open spec fn sink_not_found(error: Error, name: Seq<char>) -> bool {
    error.says(ErrorCode::SinkNotFound, with_name("no sink is registered with the name"@, name))
}

/// An error returned when a sink was not found.
pub(crate) fn sink_not_found_error(name: &str) -> (error: Error)
    ensures
        sink_not_found(error, name@),
{
    to_error_with_name(ErrorCode::SinkNotFound, "no sink is registered with the name", name)
}

/// Simulation monitor.
///
/// A `MonitorService` enables the monitoring of the event sinks of a
/// simulation.
pub enum MonitorService<K> {
    /// A simulation was started.
    Started {
        /// The event sinks.
        event_sink_registry: Registry<K>,
    },
    /// There is no simulation.
    NotStarted,
}

impl<K> MonitorService<K> {
    /// The invariant of the service.
    pub open spec fn wf(self) -> bool {
        self matches MonitorService::Started { event_sink_registry } ==> event_sink_registry.wf()
    }

    /// What happens upon a request to read events.
    pub open spec fn read_answered<F>(
        self,
        request: ReadEventsRequest,
        collect: F,
        result: Result<Vec<Vec<u8>>, Error>,
    ) -> bool where F: FnOnce(&K) -> Result<Vec<Vec<u8>>, CodecError> {
        match self {
            MonitorService::Started { event_sink_registry } => if event_sink_registry.has(
                request.sink_name@,
            ) {
                exists|collected: Result<Vec<Vec<u8>>, CodecError>| #[trigger]
                    collect.ensures(
                        (&event_sink_registry.item(request.sink_name@),),
                        collected,
                    ) && match collected {
                        Ok(events) => result == Ok::<Vec<Vec<u8>>, Error>(events),
                        Err(e) => result is Err && result->Err_0.says(
                            ErrorCode::InvalidMessage,
                            codec_text("the event could not be serialized from type"@, e, true),
                        ),
                    }
            } else {
                result is Err && sink_not_found(result->Err_0, request.sink_name@)
            },
            MonitorService::NotStarted => result is Err && not_started(result->Err_0),
        }
    }

    /// Reads all events from an event sink.
    ///
    /// The provided function takes all events from a sink and serializes them.
    pub fn read_events<F>(&self, request: ReadEventsRequest, collect: F) -> (result: Result<
        Vec<Vec<u8>>,
        Error,
    >) where F: FnOnce(&K) -> Result<Vec<Vec<u8>>, CodecError>
        requires
            forall|sink: &K| collect.requires((sink,)),
        ensures
            self.read_answered(request, collect, result),
    {
        match self {
            MonitorService::Started { event_sink_registry } => {
                let sink = match event_sink_registry.get(request.sink_name.as_str()) {
                    Some(sink) => sink,
                    None => return Err(sink_not_found_error(request.sink_name.as_str())),
                };
                let collected = collect(sink);
                match collected {
                    Ok(events) => Ok(events),
                    Err(e) => Err(
                        codec_error("the event could not be serialized from type", &e, true),
                    ),
                }
            },
            MonitorService::NotStarted => Err(simulation_not_started_error()),
        }
    }

    /// What happens upon a request to open or close a sink with the given
    /// function.
    pub open spec fn switch_answered<F>(
        self,
        name: Seq<char>,
        switch: F,
        result: Result<(), Error>,
    ) -> bool where F: FnOnce(&K) -> () {
        match self {
            MonitorService::Started { event_sink_registry } => if event_sink_registry.has(name) {
                result is Ok && switch.ensures((&event_sink_registry.item(name),), ())
            } else {
                result is Err && sink_not_found(result->Err_0, name)
            },
            MonitorService::NotStarted => result is Err && not_started(result->Err_0),
        }
    }

    /// Opens an event sink with the provided function.
    pub fn open_sink<F>(&self, request: OpenSinkRequest, open: F) -> (result: Result<
        (),
        Error,
    >) where F: FnOnce(&K) -> ()
        requires
            forall|sink: &K| open.requires((sink,)),
        ensures
            self.switch_answered(request.sink_name@, open, result),
    {
        match self {
            MonitorService::Started { event_sink_registry } => match event_sink_registry.get(
                request.sink_name.as_str(),
            ) {
                Some(sink) => {
                    open(sink);
                    Ok(())
                },
                None => Err(sink_not_found_error(request.sink_name.as_str())),
            },
            MonitorService::NotStarted => Err(simulation_not_started_error()),
        }
    }

    /// Closes an event sink with the provided function.
    pub fn close_sink<F>(&self, request: CloseSinkRequest, close: F) -> (result: Result<
        (),
        Error,
    >) where F: FnOnce(&K) -> ()
        requires
            forall|sink: &K| close.requires((sink,)),
        ensures
            self.switch_answered(request.sink_name@, close, result),
    {
        match self {
            MonitorService::Started { event_sink_registry } => match event_sink_registry.get(
                request.sink_name.as_str(),
            ) {
                Some(sink) => {
                    close(sink);
                    Ok(())
                },
                None => Err(sink_not_found_error(request.sink_name.as_str())),
            },
            MonitorService::NotStarted => Err(simulation_not_started_error()),
        }
    }
}

/// The events of a sink are those that its own sink holds, whatever other sinks are
/// registered. Reading a sink that is not registered is an error, and so is reading
/// any sink before a simulation was started.
pub proof fn law_events_of_sink<K, F>(
    service: MonitorService<K>,
    request: ReadEventsRequest,
    collect: F,
    result: Result<Vec<Vec<u8>>, Error>,
    sinks: Seq<(String, K)>,
    i: int,
) where F: FnOnce(&K) -> Result<Vec<Vec<u8>>, CodecError>
    requires
        service.wf(),
        service.read_answered(request, collect, result),
        service matches MonitorService::Started { event_sink_registry } ==> event_sink_registry@
            == sinks,
    ensures
        service is NotStarted ==> (result matches Err(e) && e.code
            == ErrorCode::SimulationNotStarted),
        service is Started && (forall|j: int|
            0 <= j < sinks.len() ==> (#[trigger] sinks[j]).0@ != request.sink_name@) ==> (
        result matches Err(e) && e.code == ErrorCode::SinkNotFound),
        service is Started && 0 <= i < sinks.len() && sinks[i].0@ == request.sink_name@
            ==> match result {
            Ok(events) => collect.ensures((&sinks[i].1,), Ok(events)),
            Err(e) => e.code == ErrorCode::InvalidMessage && exists|error: CodecError| #[trigger]
                collect.ensures((&sinks[i].1,), Err(error)),
        },
{
    if let MonitorService::Started { event_sink_registry } = service {
        law_items_are_found_by_name(event_sink_registry, request.sink_name@);
        if 0 <= i < sinks.len() && sinks[i].0@ == request.sink_name@ {
            law_each_item_is_found(event_sink_registry, i);
        }
    }
}

/// The sink with the given name is the one that is opened or closed. This is an error
/// if it is not registered, or if no simulation was started.
pub proof fn law_switched_sink<K, F>(
    service: MonitorService<K>,
    name: Seq<char>,
    switch: F,
    result: Result<(), Error>,
    sinks: Seq<(String, K)>,
    i: int,
) where F: FnOnce(&K) -> ()
    requires
        service.wf(),
        service.switch_answered(name, switch, result),
        service matches MonitorService::Started { event_sink_registry } ==> event_sink_registry@
            == sinks,
    ensures
        service is NotStarted ==> (result matches Err(e) && e.code
            == ErrorCode::SimulationNotStarted),
        service is Started && (forall|j: int|
            0 <= j < sinks.len() ==> (#[trigger] sinks[j]).0@ != name) ==> (result matches Err(e)
            && e.code == ErrorCode::SinkNotFound),
        service is Started && 0 <= i < sinks.len() && sinks[i].0@ == name ==> result is Ok
            && switch.ensures((&sinks[i].1,), ()),
{
    if let MonitorService::Started { event_sink_registry } = service {
        law_items_are_found_by_name(event_sink_registry, name);
        if 0 <= i < sinks.len() && sinks[i].0@ == name {
            law_each_item_is_found(event_sink_registry, i);
        }
    }
}

/// The error returned when there is no sink with some name tells the name.
pub proof fn law_sink_not_found(error: Error, name: Seq<char>)
    ensures
        sink_not_found(error, name) <==> error.code == ErrorCode::SinkNotFound && error.message@
            == "no sink is registered with the name"@ + " '"@ + name + "'"@,
{
}

} // verus!
