//! Verified protocol engine for talking to a microcontroller-based
//! engine-signal simulator over a serial byte stream.
//!
//! The library holds the logic that is worth proving: connection lifecycle
//! bookkeeping, command framing, chunked configuration upload with
//! acknowledgment scanning and a bounded response buffer, device-status
//! parsing, and the validation rules of the signal store.  The actual serial
//! I/O, file persistence and UI plumbing live outside the library and drive
//! these state machines with plain values.

pub mod connection;
pub mod errors;
pub mod ports;
pub mod signals;
pub mod status;
pub mod text;
pub mod upload;
