//! Resilient messaging core for a host-metrics telemetry pipeline.
//!
//! A producer samples host metrics, encodes them as a JSON snapshot and
//! publishes them to a fanout exchange; consumers bind a private queue to
//! that exchange and acknowledge or reject each delivery, rejected messages
//! being routed to a dead-letter exchange. This crate holds the verified
//! core of that pipeline: the connection and channel recovery state
//! machines, the queue topology and naming rules, the publish plan, the
//! consumer session state machine with its delivery policy, and the
//! snapshot codec. The I/O that drives these machines (the broker client,
//! the metrics sampler, timers) lives outside and feeds them plain values.

pub mod codec;
pub mod config;
pub mod policy;
pub mod publisher;
pub mod session;
pub mod supervisor;
pub mod topology;
