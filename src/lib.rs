//! Real-time core of a chat platform: permission resolution for channel
//! members, per-connection sessions with bounded outbound queues, a registry
//! of live sessions, a topic router that fans messages out locally and to a
//! shared bus, the client wire protocol, and the framing of what crosses the
//! bus.

pub mod models;
pub mod permission;
pub mod queue;
pub mod session;
pub mod router;
pub mod registry;
pub mod gateway;
pub mod codec;
pub mod wire;
pub mod malformed;
pub mod bus;
