//! The system clock, read as whole seconds and microseconds since the Unix
//! epoch.

use std::time::{Duration, SystemTime};
use vstd::prelude::*;
use crate::stamp::{format_timestamp, timestamp_text};

verus! {

/// Makes `std::time::SystemTime` known to Verus, as an opaque type.
#[verifier::external_type_specification]
#[verifier::external_body]
pub struct ExSystemTime(SystemTime);

/// Calls `SystemTime::now`. Nothing is claimed of the time it returns.
#[verifier::external_body]
fn system_now() -> SystemTime {
    SystemTime::now()
}

/// Calls `SystemTime::duration_since` with `UNIX_EPOCH`, turning its error
/// (the time lies before the epoch) into `None`. Nothing is claimed of the
/// duration.
#[verifier::external_body]
fn since_unix_epoch(t: &SystemTime) -> Option<Duration> {
    t.duration_since(std::time::UNIX_EPOCH).ok()
}

/// Calls `Duration::as_secs`: the whole seconds of `d`. Nothing is claimed
/// of the value.
#[verifier::external_body]
fn whole_seconds(d: &Duration) -> u64 {
    d.as_secs()
}

/// Calls `Duration::subsec_micros`: the fractional part of `d` in
/// microseconds, which its documentation says is below one million.
#[verifier::external_body]
fn subsecond_micros(d: &Duration) -> (r: u32)
    ensures
        r < 1_000_000,
{
    d.subsec_micros()
}

/// A clock reading as whole seconds and microseconds, given the time since
/// the Unix epoch; `(0, 0)` when the clock reads a time before the epoch.
pub fn clock_reading(since_epoch: Option<(u64, u32)>) -> (r: (u64, u32))
    ensures
        r == match since_epoch {
            Some(t) => t,
            None => (0u64, 0u32),
        },
{
    match since_epoch {
        Some(t) => t,
        None => (0, 0),
    }
}

/// The current time as whole seconds and microseconds since the Unix epoch;
/// `(0, 0)` when the clock reads a time before the epoch.
pub fn read_clock() -> (r: (u64, u32))
    ensures
        r.1 < 1_000_000,
{
    let now = system_now();
    let since_epoch = match since_unix_epoch(&now) {
        Some(d) => Some((whole_seconds(&d), subsecond_micros(&d))),
        None => None,
    };
    clock_reading(since_epoch)
}

/// The current time as `{secs}-{micros:06}`, microsecond resolution, so
/// that files archived one after another get distinct names.
pub fn timestamp_component() -> (r: String)
    ensures
        exists|secs: u64, micros: u32|
            micros < 1_000_000 && r@ == #[trigger] timestamp_text(secs as nat, micros as nat),
{
    let (secs, micros) = read_clock();
    let r = format_timestamp(secs, micros);
    assert(micros < 1_000_000 && r@ == timestamp_text(secs as nat, micros as nat));
    r
}

} // verus!
