//! The verified core of a discrete-event simulator: message queues and their
//! wait sets, the task scheduler, simulation time and the event schedule, the
//! ports that broadcast between models, and the remote control services.

pub mod channel;
pub mod executor;
pub mod model;
pub mod ports;
pub mod rpc;
pub mod simulation;
pub mod time;
pub mod util;
