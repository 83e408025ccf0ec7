//! Talking to tool servers over HTTP: event streams, era detection, the
//! request round trip, and the pool that shares connections.

pub mod http;
pub mod pool;
pub mod recorded;
pub mod sse;
