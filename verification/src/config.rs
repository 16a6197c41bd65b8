//! Configuration of the byte source the observer taps.
//!
//! The library only holds these as plain values; opening the configured
//! source and reading from it is the embedding program's work.

use vstd::prelude::*;

verus! {

/// The TCP port a serial-over-TCP bridge listens on by default.
pub const DEFAULT_PORT: u16 = 7160;

/// The default idle time before keepalive probes are sent, in seconds.
pub const DEFAULT_KEEPALIVE_IDLE: u64 = 30;

/// The default interval between keepalive probes, in seconds.
pub const DEFAULT_KEEPALIVE_INTERVAL: u64 = 10;

/// The default number of unacknowledged probes before the connection is
/// considered dead.
pub const DEFAULT_KEEPALIVE_COUNT: u32 = 5;

/// Whether a connection may be written to, or only observed.
#[derive(Debug, Copy, Clone, Eq, PartialEq, Structural)]
pub enum ConnectionMode {
    ReadOnly,
    ReadWrite,
}

impl Default for ConnectionMode {
    /// The observer never transmits, so connections default to read-only.
    fn default() -> (r: ConnectionMode)
        ensures
            r == ConnectionMode::ReadOnly,
    {
        ConnectionMode::ReadOnly
    }
}

/// A local serial port source.
#[derive(Debug, Clone, Eq, PartialEq)]
pub struct SerialSourceConfig {
    pub name: String,
}

/// A serial-over-TCP bridge source.
#[derive(Debug, Clone, Eq, PartialEq)]
pub struct TcpConnectionConfig {
    pub hostname: String,
    pub port: u16,
    pub mode: ConnectionMode,
    /// Idle seconds before keepalive probes are sent.
    pub keepalive_idle: u64,
    /// Seconds between individual keepalive probes.
    pub keepalive_interval: u64,
    /// Unacknowledged probes before the connection is considered dead.
    pub keepalive_count: u32,
}

/// Configuration options for TCP keepalive, in seconds.
#[derive(Debug, Copy, Clone, Eq, PartialEq, Structural)]
pub struct TcpKeepaliveConfig {
    /// Idle time before keepalive probes are sent, in seconds.
    pub idle: u64,
    /// Interval between individual keepalive probes, in seconds.
    pub interval: u64,
    /// Number of unacknowledged probes before the connection is considered
    /// dead.
    pub count: u32,
}

impl Default for TcpKeepaliveConfig {
    fn default() -> (r: TcpKeepaliveConfig)
        ensures
            r == (TcpKeepaliveConfig {
                idle: DEFAULT_KEEPALIVE_IDLE,
                interval: DEFAULT_KEEPALIVE_INTERVAL,
                count: DEFAULT_KEEPALIVE_COUNT,
            }),
    {
        TcpKeepaliveConfig {
            idle: DEFAULT_KEEPALIVE_IDLE,
            interval: DEFAULT_KEEPALIVE_INTERVAL,
            count: DEFAULT_KEEPALIVE_COUNT,
        }
    }
}

/// Where the observed bytes come from.
#[derive(Debug, Clone, Eq, PartialEq)]
pub enum SourceConfig {
    Serial(SerialSourceConfig),
    Tcp(TcpConnectionConfig),
}

impl SourceConfig {
    /// The keepalive parameters a TCP source asks for; a serial source has
    /// none.
    pub fn keepalive(&self) -> (r: Option<TcpKeepaliveConfig>)
        ensures
            self is Tcp <==> r is Some,
            self is Tcp ==> r->0 == (TcpKeepaliveConfig {
                idle: self->Tcp_0.keepalive_idle,
                interval: self->Tcp_0.keepalive_interval,
                count: self->Tcp_0.keepalive_count,
            }),
    {
        match self {
            SourceConfig::Serial(_) => None,
            SourceConfig::Tcp(c) => Some(
                TcpKeepaliveConfig {
                    idle: c.keepalive_idle,
                    interval: c.keepalive_interval,
                    count: c.keepalive_count,
                },
            ),
        }
    }
}

} // verus!
