//! The immutable configuration record shared by all connections.

use vstd::prelude::*;

verus! {

/// Largest request body the engine accepts, in bytes.
pub const DEFAULT_MAX_BODY: u64 = 1073741824;

/// Immutable server configuration, consumed by every other component.
/// Durations are held in milliseconds of the process-wide monotonic clock.
pub struct Settings {
    /// Whether the listener terminates TLS.
    pub use_tls: bool,
    /// The bind host, as text (a name or a dotted address).
    pub host: Vec<u8>,
    /// The bind port.
    pub port: u16,
    /// How many pending connections one accept cycle may take.
    pub backlog: usize,
    /// How long one connection may serve sequential exchanges.
    pub keep_alive_ms: u64,
    /// How long a connection may sit without activity before eviction.
    pub idle_max_ms: u64,
}

impl Settings {
    /// A configuration from plain values; durations are given in whole
    /// seconds, as the host passes them.
    pub fn new(
        use_tls: bool,
        host: Vec<u8>,
        port: u16,
        backlog: usize,
        keep_alive_secs: u64,
        idle_max_secs: u64,
    ) -> (r: Settings)
        requires
            keep_alive_secs <= u64::MAX / 1000,
            idle_max_secs <= u64::MAX / 1000,
        ensures
            r.use_tls == use_tls,
            r.host == host,
            r.port == port,
            r.backlog == backlog,
            r.keep_alive_ms == keep_alive_secs * 1000,
            r.idle_max_ms == idle_max_secs * 1000,
    {
        Settings {
            use_tls,
            host,
            port,
            backlog,
            keep_alive_ms: keep_alive_secs * 1000,
            idle_max_ms: idle_max_secs * 1000,
        }
    }
}

} // verus!
