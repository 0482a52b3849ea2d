//! Wall-clock instants as plain integers.
use vstd::prelude::*;

use crate::clock::{duration_secs, since_unix_epoch, subsec_nanos, system_now};

verus! {

/// A UTC instant: whole seconds since the Unix epoch plus nanoseconds.
#[derive(Debug, Clone, Copy, PartialEq, Eq, Structural)]
pub struct Timestamp {
    pub secs: i64,
    pub nanos: u32,
}

/// The current UTC time from the system clock, split into seconds and
/// nanoseconds; a clock reading before the Unix epoch gives the epoch itself.
pub(crate) fn utc_now() -> (t: Timestamp)
    ensures
        t.secs >= 0,
        t.nanos < 1_000_000_000,
{
    match since_unix_epoch(&system_now()) {
        Ok(d) => {
            let secs = duration_secs(&d);
            let secs: i64 = if secs > i64::MAX as u64 {
                i64::MAX
            } else {
                secs as i64
            };
            Timestamp { secs, nanos: subsec_nanos(&d) }
        },
        Err(_) => Timestamp { secs: 0, nanos: 0 },
    }
}

} // verus!
