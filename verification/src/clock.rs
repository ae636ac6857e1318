//! The current time, read from the system clock.
use vstd::prelude::*;
use std::time::{Duration, SystemTime};

verus! {

/// `std::time::SystemTime`, carried through without looking inside.
#[verifier::external_type_specification]
#[verifier::external_body]
pub struct ExSystemTime(SystemTime);

/// Calls `SystemTime::now`. The result is the current reading of the system
/// clock; nothing is claimed about it.
#[verifier::external_body]
fn system_time_now() -> SystemTime {
    SystemTime::now()
}

/// Calls `SystemTime::duration_since` with `UNIX_EPOCH`: the time elapsed
/// since 1970-01-01 UTC, `None` where std reports an error (a clock set
/// before 1970). Nothing is claimed about the value, which depends on the
/// clock.
#[verifier::external_body]
fn duration_since_unix_epoch(t: &SystemTime) -> Option<Duration> {
    t.duration_since(std::time::UNIX_EPOCH).ok()
}

/// Calls `Duration::as_secs`: the whole seconds of the duration. The
/// duration is opaque here, so nothing is claimed about the value.
#[verifier::external_body]
fn duration_as_secs(d: &Duration) -> u64 {
    d.as_secs()
}

/// The seconds elapsed since the Unix epoch, or 0 when the clock reads a
/// time before it.
pub fn secs_or_zero(since_epoch: Option<u64>) -> (r: u64)
    ensures
        r == match since_epoch {
            Some(s) => s,
            None => 0,
        },
{
    match since_epoch {
        Some(s) => s,
        None => 0,
    }
}

/// Seconds since the Unix epoch by the system clock; 0 for a clock set
/// before 1970.
pub fn now_epoch() -> u64 {
    let now = system_time_now();
    let since_epoch = match duration_since_unix_epoch(&now) {
        Some(d) => Some(duration_as_secs(&d)),
        None => None,
    };
    secs_or_zero(since_epoch)
}

} // verus!
