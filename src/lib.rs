//! The device side of a small request/response protocol that streams a
//! buffered sequence of telemetry records to a host over a packet link.
//!
//! - `wire`: the protocol values and their fixed binary layout.
//! - `engine`: the per-session state machine that answers requests.
//! - `supervisor`: the service loop's decisions across connections.
pub mod wire;
pub mod engine;
pub mod supervisor;
