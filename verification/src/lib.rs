//! Verified core of an MQTT v3 broker: the binary codec for the v3 control
//! packet set, the per-client session state machine, the QoS 2 in-flight
//! store, the topic subscription registry with wildcard matching, and the
//! event handler that drives them. Transport I/O and the async event loop
//! live outside this crate; the handler here is a pure step function from
//! state and event to new state, a return kind, and broadcast actions.

pub mod protocol;
pub mod codec;
pub mod topic;
pub mod message;
pub mod connect;
pub mod session;
pub mod container;
pub mod subscript;
pub mod broker;
