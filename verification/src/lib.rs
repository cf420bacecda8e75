//! A resilient bridge between one remote line-oriented chat connection and a
//! dynamic set of local subscriber connections.
//!
//! The library holds the verified core: the wire-format line codec, the
//! subscriber registry bookkeeping, the liveness (heartbeat) monitor, the
//! connection manager's reconnect state machine, the line router, and the
//! configuration model. All I/O lives outside, in the surrounding binary.

pub mod codec;
pub mod config;
pub mod conn;
pub mod liveness;
pub mod registry;
pub mod router;
