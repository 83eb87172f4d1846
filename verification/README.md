# Asynchronix

A discrete-event simulation framework in which models are isolated entities that
communicate by asynchronous message passing. All decisions of the framework are
taken by a library that is verified with [Verus](https://github.com/verus-lang/verus):

- `src/time.rs`: timestamps and durations,
- `src/simulation.rs` and below: simulation time, the scheduling queue and the
  life cycle of a simulation,
- `src/channel.rs` and below: bounded mailboxes and the notification of senders
  that wait for space,
- `src/executor.rs` and below: tasks, work-stealing queues, the injector queue
  and the pool of workers,
- `src/ports.rs` and below: output, requestor and source ports, broadcasts and
  event sinks,
- `src/model.rs`: names of models,
- `src/rpc.rs` and below: the requests of remote clients.

The library neither blocks nor spawns threads. Where something has to be
performed, it returns what must be done and is told about the outcome. Wakers,
futures, actions and messages that it does not have to look into are designated
by numbers or are generic.

The crate in `app/` does what the library decides: it runs the worker threads and
the futures, reads the clock, encodes and decodes messages and serves remote
clients.

Functions named `law_*` state properties that relate several operations, such as
the order in which messages are received.
