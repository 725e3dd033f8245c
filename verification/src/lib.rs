//! A non-blocking HTTP/1.1 connection engine.
//!
//! The crate owns buffering, incremental request parsing, body framing
//! (content-length and chunked transfer encoding), response sending with
//! backpressure, per-connection lifecycle with keep-alive and idle
//! eviction, and the bookkeeping of a server's connection table.  Socket
//! I/O and the host embedding live outside the crate and hand plain bytes
//! and timestamps in.

pub mod buffer;
pub mod chunked;
pub mod connection;
pub mod head;
pub mod parser;
pub mod receiver;
pub mod sender;
pub mod server;
pub mod settings;
pub mod utils;

use vstd::prelude::*;

verus! {

/// Carriage return, the first byte of a line terminator.
pub const CR: u8 = 13;

/// Line feed, the second byte of a line terminator.
pub const LF: u8 = 10;

} // verus!
