//! Port arbitration and multi-client bridging for a serial-port gateway.
//!
//! The crate holds the decisions of the gateway: the message vocabulary, the
//! registry of open ports with their subscribers, and the life of a client
//! session. Hardware and network traffic is performed by the caller, which
//! reports each outcome back as a plain value.

pub mod protocol;
pub mod registry;
pub mod session;
pub mod wire;
pub mod laws;
