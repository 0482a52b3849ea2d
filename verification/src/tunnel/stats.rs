//! Traffic counters for one tunnel.
use vstd::prelude::*;

use std::time::Instant;

use crate::clock::{duration_secs, instant_elapsed, instant_now};
use crate::model::status::StatsSnapshot;

verus! {

/// Counters for one tunnel.
///
/// Convention: **up** = bytes the local side sends into the tunnel, **down** =
/// bytes received from the tunnel. Counters wrap around on overflow, as
/// atomic counters do.
#[derive(Debug)]
pub struct TunnelStats {
    bytes_up: u64,
    bytes_down: u64,
    active: u32,
    started: Instant,
}

impl TunnelStats {
    pub closed spec fn up(&self) -> u64 {
        self.bytes_up
    }

    pub closed spec fn down(&self) -> u64 {
        self.bytes_down
    }

    pub closed spec fn active(&self) -> u32 {
        self.active
    }

    /// Fresh counters, with the uptime clock started now.
    pub fn new() -> (s: Self)
        ensures
            s.up() == 0 && s.down() == 0 && s.active() == 0,
    {
        TunnelStats { bytes_up: 0, bytes_down: 0, active: 0, started: instant_now() }
    }

    /// Count `n` bytes sent into the tunnel.
    pub fn add_up(&mut self, n: u64)
        ensures
            final(self).up() == old(self).up().wrapping_add(n),
            final(self).down() == old(self).down(),
            final(self).active() == old(self).active(),
    {
        self.bytes_up = self.bytes_up.wrapping_add(n);
    }

    /// Count `n` bytes received from the tunnel.
    pub fn add_down(&mut self, n: u64)
        ensures
            final(self).down() == old(self).down().wrapping_add(n),
            final(self).up() == old(self).up(),
            final(self).active() == old(self).active(),
    {
        self.bytes_down = self.bytes_down.wrapping_add(n);
    }

    /// A forwarded connection opened.
    pub fn conn_open(&mut self)
        ensures
            final(self).active() == old(self).active().wrapping_add(1),
            final(self).up() == old(self).up(),
            final(self).down() == old(self).down(),
    {
        self.active = self.active.wrapping_add(1);
    }

    /// A forwarded connection closed.
    pub fn conn_close(&mut self)
        ensures
            final(self).active() == old(self).active().wrapping_sub(1),
            final(self).up() == old(self).up(),
            final(self).down() == old(self).down(),
    {
        self.active = self.active.wrapping_sub(1);
    }

    /// A new session of the same tunnel: the byte and connection counters
    /// carry over, the uptime clock starts again.
    pub fn restart_uptime(&mut self)
        ensures
            final(self).up() == old(self).up(),
            final(self).down() == old(self).down(),
            final(self).active() == old(self).active(),
    {
        self.started = instant_now();
    }

    /// The counters now, with the uptime in whole seconds.
    pub fn snapshot(&self) -> (s: StatsSnapshot)
        ensures
            s.bytes_up == self.up(),
            s.bytes_down == self.down(),
            s.active_connections == self.active(),
            s.retry_count == 0,
    {
        StatsSnapshot {
            bytes_up: self.bytes_up,
            bytes_down: self.bytes_down,
            active_connections: self.active,
            uptime_seconds: duration_secs(&instant_elapsed(&self.started)),
            retry_count: 0,
        }
    }
}

/// Opening and then closing a connection leaves the active count as it was.
pub proof fn law_open_close_balanced(active: u32)
    ensures
        active.wrapping_add(1).wrapping_sub(1) == active,
{
}

/// Counting `a` bytes and then `b` bytes counts `a + b` bytes (wrapping).
pub proof fn law_counts_add_up(total: u64, a: u64, b: u64)
    ensures
        total.wrapping_add(a).wrapping_add(b) == (total + a + b) % 0x1_0000_0000_0000_0000,
{
}

} // verus!
