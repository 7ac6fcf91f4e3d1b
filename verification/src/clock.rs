//! The wall clock.

use vstd::prelude::*;

verus! {

/// `std::time::SystemTime`, a reading of the system's clock.
#[verifier::external_type_specification]
#[verifier::external_body]
pub struct ExSystemTime(std::time::SystemTime);

/// The nanoseconds that a `core::time::Duration` holds.
pub uninterp spec fn nanos_in(d: core::time::Duration) -> nat;

/// `SystemTime::now` reads the system's clock. Nothing is claimed of the reading.
pub assume_specification[ std::time::SystemTime::now ]() -> std::time::SystemTime
;

/// `Duration::as_secs` gives the whole seconds of a duration.
pub assume_specification[ core::time::Duration::as_secs ](d: &core::time::Duration) -> (r: u64)
    ensures
        r == nanos_in(*d) / 1_000_000_000,
;

/// `Duration::as_millis` gives the whole milliseconds of a duration.
pub assume_specification[ core::time::Duration::as_millis ](d: &core::time::Duration) -> (r: u128)
    ensures
        r == nanos_in(*d) / 1_000_000,
;

/// `Duration::subsec_micros` gives the part of a duration below its whole
/// seconds, in whole microseconds.
pub assume_specification[ core::time::Duration::subsec_micros ](d: &core::time::Duration) -> (r: u32)
    ensures
        r == nanos_in(*d) % 1_000_000_000 / 1000,
;

/// `SystemTime::duration_since` the Unix epoch; none where the clock stands
/// before it. Nothing is claimed of the duration, since nothing is known of the
/// reading.
#[verifier::external_body]
fn since_epoch(t: std::time::SystemTime) -> (r: Option<core::time::Duration>) {
    t.duration_since(std::time::UNIX_EPOCH).ok()
}

/// The whole milliseconds of the time since the Unix epoch, in the low bits that
/// an `i64` has; zero where the clock stands before it.
pub open spec fn millis_in(elapsed: Option<core::time::Duration>) -> i64 {
    match elapsed {
        Some(d) => (nanos_in(d) / 1_000_000) as u128 as i64,
        None => 0,
    }
}

/// The whole seconds of the time since the Unix epoch, in the low bits that an
/// `i64` has; zero where the clock stands before it.
pub open spec fn secs_in(elapsed: Option<core::time::Duration>) -> i64 {
    match elapsed {
        Some(d) => (nanos_in(d) / 1_000_000_000) as u64 as i64,
        None => 0,
    }
}

/// The microseconds of the last second that has begun since the Unix epoch; zero
/// where the clock stands before it.
pub open spec fn micros_in(elapsed: Option<core::time::Duration>) -> int {
    match elapsed {
        Some(d) => nanos_in(d) as int % 1_000_000_000 / 1000,
        None => 0,
    }
}

/// Milliseconds of the time since the Unix epoch.
pub fn millis_of(elapsed: Option<core::time::Duration>) -> (r: i64)
    ensures
        r == millis_in(elapsed),
{
    match elapsed {
        Some(d) => d.as_millis() as i64,
        None => 0,
    }
}

/// Seconds of the time since the Unix epoch, and the microseconds of the last
/// second.
pub fn parts_of(elapsed: Option<core::time::Duration>) -> (r: (i64, u32))
    ensures
        r.0 == secs_in(elapsed),
        r.1 == micros_in(elapsed),
        r.1 < 1_000_000,
{
    match elapsed {
        Some(d) => (d.as_secs() as i64, d.subsec_micros()),
        None => (0, 0),
    }
}

/// Milliseconds since the Unix epoch; zero where the clock stands before it.
pub fn now_ms() -> (r: i64)
    ensures
        exists|elapsed: Option<core::time::Duration>| r == #[trigger] millis_in(elapsed),
{
    millis_of(since_epoch(std::time::SystemTime::now()))
}

/// Seconds since the Unix epoch, and the microseconds of the current second;
/// zero where the clock stands before it.
pub fn now_parts() -> (r: (i64, u32))
    ensures
        exists|elapsed: Option<core::time::Duration>|
            r.0 == #[trigger] secs_in(elapsed) && r.1 == micros_in(elapsed),
        r.1 < 1_000_000,
{
    parts_of(since_epoch(std::time::SystemTime::now()))
}

} // verus!
