//! Core logic of a captive-portal provisioning device.
//!
//! The crate covers the three pieces that decide everything the device does:
//! the DNS hijack responder's reply construction, the provisioning HTTP
//! server's request handling, and the campus-portal authentication client's
//! probe/login handshake, together with the connection orchestrator's boot
//! decisions and the persisted network configuration.  Network transports
//! (radio, sockets, HTTP connections) stay outside; every decision they feed
//! is made here, as a function from plain values to plain values.

pub mod bupt;
pub mod dns;
pub mod http;
pub mod net;
pub mod percent;
pub mod store;
pub mod text;
