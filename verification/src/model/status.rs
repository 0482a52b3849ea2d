//! Live status of tunnels (not persisted).
use vstd::prelude::*;

use crate::model::timestamp::{utc_now, Timestamp};

verus! {

/// Live lifecycle state of a tunnel.
#[derive(Debug, Clone, Copy, PartialEq, Eq, Structural)]
pub enum TunnelState {
    Idle,
    Connecting,
    Connected,
    Reconnecting,
    Error,
    Stopping,
}

/// Point-in-time traffic/health metrics for a tunnel.
#[derive(Debug, Clone, Copy, PartialEq, Eq, Structural)]
pub struct StatsSnapshot {
    pub bytes_up: u64,
    pub bytes_down: u64,
    pub active_connections: u32,
    pub uptime_seconds: u64,
    pub retry_count: u32,
}

impl StatsSnapshot {
    pub open spec fn zero() -> StatsSnapshot {
        StatsSnapshot {
            bytes_up: 0,
            bytes_down: 0,
            active_connections: 0,
            uptime_seconds: 0,
            retry_count: 0,
        }
    }
}

impl Default for StatsSnapshot {
    fn default() -> (s: Self)
        ensures
            s == Self::zero(),
    {
        StatsSnapshot {
            bytes_up: 0,
            bytes_down: 0,
            active_connections: 0,
            uptime_seconds: 0,
            retry_count: 0,
        }
    }
}

/// A status update for one tunnel.
#[derive(Debug, Clone, PartialEq, Eq)]
pub struct TunnelStatus {
    pub id: u128,
    pub state: TunnelState,
    pub message: Option<String>,
    pub stats: StatsSnapshot,
    /// When the status was taken.
    pub since: Timestamp,
}

impl TunnelStatus {
    /// A status with no message and zeroed stats, stamped with the current time.
    pub fn new(id: u128, state: TunnelState) -> (s: Self)
        ensures
            s.id == id,
            s.state == state,
            s.message is None,
            s.stats == StatsSnapshot::zero(),
    {
        TunnelStatus { id, state, message: None, stats: StatsSnapshot::default(), since: utc_now() }
    }

    pub fn with_message(self, message: String) -> (s: Self)
        ensures
            s.id == self.id,
            s.state == self.state,
            s.message == Some(message),
            s.stats == self.stats,
            s.since == self.since,
    {
        let mut s = self;
        s.message = Some(message);
        s
    }
}

#[derive(Debug, Clone, Copy, PartialEq, Eq, Structural)]
pub enum LogLevel {
    Info,
    Warn,
    Error,
}

/// A single log line for one tunnel.
#[derive(Debug, Clone, PartialEq, Eq)]
pub struct LogLine {
    pub id: u128,
    pub level: LogLevel,
    pub ts: Timestamp,
    pub line: String,
}

impl LogLine {
    /// A log line stamped with the current time.
    pub fn new(id: u128, level: LogLevel, line: String) -> (l: Self)
        ensures
            l.id == id,
            l.level == level,
            l.line == line,
    {
        LogLine { id, level, ts: utc_now(), line }
    }
}

} // verus!
