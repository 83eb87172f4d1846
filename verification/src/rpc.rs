//! Simulation management through remote procedure calls.

pub mod key_registry;
pub mod message;
pub mod protobuf;
pub mod registry;
pub mod services;
pub mod simulation_service;
