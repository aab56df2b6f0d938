//! Core of an embedded telemetry platform: a typed publish/subscribe bus that
//! broadcasts sensor values to every current subscriber, and the protocol
//! logic of a gateway that upgrades HTTP connections to WebSocket and forwards
//! bus messages to them as binary frames.
//!
//! Everything that computes lives here, with contracts; the thin runtime
//! around it (threads, sockets, device files) hands plain values in and out.

pub mod bus;
pub mod bytes;
pub mod gateway;
pub mod handshake;
pub mod http;
pub mod messages;
pub mod sched;
pub mod sysinfo;
pub mod wire;

pub use messages::{Attitude, Message, SysInfo, VideoFrame};
