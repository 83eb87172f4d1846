//! Monitoring of event sinks.

use vstd::prelude::*;

use crate::rpc::message::{
    CloseSinkRequest, CodecError, Error, ErrorCode, OpenSinkRequest, ReadEventsRequest,
};
use crate::rpc::registry::{law_each_item_is_found, law_items_are_found_by_name, Registry};
use crate::rpc::services::monitor_service::{sink_not_found, sink_not_found_error};
use crate::rpc::services::{codec_error, codec_text};

verus! {

/// What happens upon a request to read events.
pub open spec fn events_read<K, F>(
    sinks: Registry<K>,
    request: ReadEventsRequest,
    collect: F,
    result: Result<Vec<Vec<u8>>, Error>,
) -> bool where F: FnOnce(&K) -> Result<Vec<Vec<u8>>, CodecError> {
    if sinks.has(request.sink_name@) {
        exists|collected: Result<Vec<Vec<u8>>, CodecError>| #[trigger]
            collect.ensures((&sinks.item(request.sink_name@),), collected) && match collected {
                Ok(events) => result == Ok::<Vec<Vec<u8>>, Error>(events),
                Err(e) => result is Err && result->Err_0.says(
                    ErrorCode::InvalidMessage,
                    codec_text("the event could not be serialized from type"@, e, false),
                ),
            }
    } else {
        result is Err && sink_not_found(result->Err_0, request.sink_name@)
    }
}

/// What happens upon a request to open or close a sink with the given function.
pub open spec fn sink_switched<K, F>(
    sinks: Registry<K>,
    name: Seq<char>,
    switch: F,
    result: Result<(), Error>,
) -> bool where F: FnOnce(&K) -> () {
    if sinks.has(name) {
        result is Ok && switch.ensures((&sinks.item(name),), ())
    } else {
        result is Err && sink_not_found(result->Err_0, name)
    }
}

/// Simulation monitor.
///
/// A `MonitoringService` enables the monitoring of the event sinks of a
/// simulation.
pub struct MonitoringService<K> {
    sink_registry: Registry<K>,
}

impl<K> MonitoringService<K> {
    /// The event sinks.
    pub closed spec fn sinks(self) -> Registry<K> {
        self.sink_registry
    }

    /// Creates a new `MonitoringService`.
    pub fn new(sink_registry: Registry<K>) -> (service: Self)
        ensures
            service.sinks() == sink_registry,
    {
        MonitoringService { sink_registry }
    }

    /// Reads all events from an event sink.
    ///
    /// The provided function takes all events from a sink and serializes them.
    pub fn read_events<F>(&self, request: ReadEventsRequest, collect: F) -> (result: Result<
        Vec<Vec<u8>>,
        Error,
    >) where F: FnOnce(&K) -> Result<Vec<Vec<u8>>, CodecError>
        requires
            forall|sink: &K| collect.requires((sink,)),
        ensures
            events_read(self.sinks(), request, collect, result),
    {
        read_events(&self.sink_registry, request, collect)
    }

    /// Opens an event sink with the provided function.
    pub fn open_sink<F>(&self, request: OpenSinkRequest, open: F) -> (result: Result<
        (),
        Error,
    >) where F: FnOnce(&K) -> ()
        requires
            forall|sink: &K| open.requires((sink,)),
        ensures
            sink_switched(self.sinks(), request.sink_name@, open, result),
    {
        switch_sink(&self.sink_registry, request.sink_name.as_str(), open)
    }

    /// Closes an event sink with the provided function.
    pub fn close_sink<F>(&self, request: CloseSinkRequest, close: F) -> (result: Result<
        (),
        Error,
    >) where F: FnOnce(&K) -> ()
        requires
            forall|sink: &K| close.requires((sink,)),
        ensures
            sink_switched(self.sinks(), request.sink_name@, close, result),
    {
        switch_sink(&self.sink_registry, request.sink_name.as_str(), close)
    }
}

/// Reads all events from an event sink.
pub(crate) fn read_events<K, F>(
    sinks: &Registry<K>,
    request: ReadEventsRequest,
    collect: F,
) -> (result: Result<Vec<Vec<u8>>, Error>) where
    F: FnOnce(&K) -> Result<Vec<Vec<u8>>, CodecError>,

    requires
        forall|sink: &K| collect.requires((sink,)),
    ensures
        events_read(*sinks, request, collect, result),
{
    let sink = match sinks.get(request.sink_name.as_str()) {
        Some(sink) => sink,
        None => return Err(sink_not_found_error(request.sink_name.as_str())),
    };
    let collected = collect(sink);
    match collected {
        Ok(events) => Ok(events),
        Err(e) => Err(codec_error("the event could not be serialized from type", &e, false)),
    }
}

/// Opens or closes an event sink with the provided function.
pub(crate) fn switch_sink<K, F>(sinks: &Registry<K>, name: &str, switch: F) -> (result: Result<
    (),
    Error,
>) where F: FnOnce(&K) -> ()
    requires
        forall|sink: &K| switch.requires((sink,)),
    ensures
        sink_switched(*sinks, name@, switch, result),
{
    match sinks.get(name) {
        Some(sink) => {
            switch(sink);
            Ok(())
        },
        None => Err(sink_not_found_error(name)),
    }
}

/// The events of a sink are those that its own sink holds, whatever other sinks are
/// registered. Reading a sink that is not registered is an error.
pub proof fn law_events_of_sink<K, F>(
    sinks: Registry<K>,
    request: ReadEventsRequest,
    collect: F,
    result: Result<Vec<Vec<u8>>, Error>,
    i: int,
) where F: FnOnce(&K) -> Result<Vec<Vec<u8>>, CodecError>
    requires
        sinks.wf(),
        events_read(sinks, request, collect, result),
    ensures
        (forall|j: int|
            0 <= j < sinks@.len() ==> (#[trigger] sinks@[j]).0@ != request.sink_name@) ==> (
        result matches Err(e) && e.code == ErrorCode::SinkNotFound),
        0 <= i < sinks@.len() && sinks@[i].0@ == request.sink_name@ ==> match result {
            Ok(events) => collect.ensures((&sinks@[i].1,), Ok(events)),
            Err(e) => e.code == ErrorCode::InvalidMessage && exists|error: CodecError| #[trigger]
                collect.ensures((&sinks@[i].1,), Err(error)),
        },
{
    law_items_are_found_by_name(sinks, request.sink_name@);
    if 0 <= i < sinks@.len() && sinks@[i].0@ == request.sink_name@ {
        law_each_item_is_found(sinks, i);
    }
}

/// The sink with the given name is the one that is opened or closed. This is an error
/// if it is not registered.
pub proof fn law_switched_sink<K, F>(
    sinks: Registry<K>,
    name: Seq<char>,
    switch: F,
    result: Result<(), Error>,
    i: int,
) where F: FnOnce(&K) -> ()
    requires
        sinks.wf(),
        sink_switched(sinks, name, switch, result),
    ensures
        (forall|j: int| 0 <= j < sinks@.len() ==> (#[trigger] sinks@[j]).0@ != name) ==> (
        result matches Err(e) && e.code == ErrorCode::SinkNotFound),
        0 <= i < sinks@.len() && sinks@[i].0@ == name ==> result is Ok && switch.ensures(
            (&sinks@[i].1,),
            (),
        ),
{
    law_items_are_found_by_name(sinks, name);
    if 0 <= i < sinks@.len() && sinks@[i].0@ == name {
        law_each_item_is_found(sinks, i);
    }
}

} // verus!
