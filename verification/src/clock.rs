//! Readings of the system clocks. Nothing here can be predicted: each reading
//! depends on when it is taken.
use vstd::prelude::*;

use std::time::{Duration, Instant, SystemTime, SystemTimeError};

verus! {

#[verifier::external_type_specification]
#[verifier::external_body]
pub struct ExSystemTime(SystemTime);

#[verifier::external_type_specification]
#[verifier::external_body]
pub struct ExSystemTimeError(SystemTimeError);

#[verifier::external_type_specification]
#[verifier::external_body]
pub struct ExInstant(Instant);

/// `SystemTime::now`: the current wall-clock time.
#[verifier::external_body]
pub(crate) fn system_now() -> (t: SystemTime) {
    SystemTime::now()
}

/// `SystemTime::duration_since(UNIX_EPOCH)`: time elapsed since the Unix epoch,
/// or an error when the clock reads earlier than the epoch.
#[verifier::external_body]
pub(crate) fn since_unix_epoch(t: &SystemTime) -> (r: Result<Duration, SystemTimeError>) {
    t.duration_since(std::time::UNIX_EPOCH)
}

/// `Duration::subsec_nanos`: the fractional part in nanoseconds, which the
/// standard library documents as always less than one billion.
#[verifier::external_body]
pub(crate) fn subsec_nanos(d: &Duration) -> (r: u32)
    ensures
        r < 1_000_000_000,
{
    d.subsec_nanos()
}

/// `Instant::now`: a reading of the monotonic clock.
#[verifier::external_body]
pub(crate) fn instant_now() -> (t: Instant) {
    Instant::now()
}

/// `Instant::elapsed`: time passed since the reading `t`.
#[verifier::external_body]
pub(crate) fn instant_elapsed(t: &Instant) -> (d: Duration) {
    t.elapsed()
}

/// `Duration::as_secs`: whole seconds of a duration.
#[verifier::external_body]
pub(crate) fn duration_secs(d: &Duration) -> (s: u64) {
    d.as_secs()
}

/// A cheap pseudo-random draw in `[0, 1000)` from the clock: good enough to
/// de-synchronize reconnect storms; not for cryptographic use.
pub fn jitter_permille() -> (r: u32)
    ensures
        r < 1000,
{
    match since_unix_epoch(&system_now()) {
        Ok(d) => subsec_nanos(&d) % 1000,
        Err(_) => 0,
    }
}

} // verus!
