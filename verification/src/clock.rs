//! The wall clock, read in milliseconds since the Unix epoch.
//!
//! Nothing is known of what the clock shows: every function that reads it
//! states what holds for whichever reading it got, and has a companion that
//! takes the reading as an argument.

use std::time::Duration;
use std::time::SystemTime;
use std::time::SystemTimeError;
use vstd::prelude::*;

verus! {

/// `std::time::SystemTime`, an instant of the system clock. Nothing is
/// known of what a value holds.
#[verifier::external_type_specification]
#[verifier::external_body]
pub struct ExSystemTime(SystemTime);

/// `std::time::SystemTimeError`, the failure of
/// `SystemTime::duration_since`. Nothing is known of what a value holds.
#[verifier::external_type_specification]
#[verifier::external_body]
pub struct ExSystemTimeError(SystemTimeError);

/// `SystemTime::now` reads the system clock. Nothing is claimed of the
/// instant it returns.
pub assume_specification[ SystemTime::now ]() -> (now: SystemTime);

/// `SystemTime::duration_since` measures the time from `earlier` to `t`, or
/// fails where `earlier` is the later of the two. Nothing is claimed of the
/// outcome.
pub assume_specification[ SystemTime::duration_since ](
    t: &SystemTime,
    earlier: SystemTime,
) -> (elapsed: Result<Duration, SystemTimeError>);

/// `Duration::as_millis` gives the whole milliseconds of a duration.
/// Nothing is claimed of the number.
pub assume_specification[ Duration::as_millis ](d: &Duration) -> (millis: u128);

/// The constant `SystemTime::UNIX_EPOCH`, the instant from which
/// timestamps are counted.
#[verifier::external_body]
fn unix_epoch() -> (epoch: SystemTime) {
    SystemTime::UNIX_EPOCH
}

/// The current time in milliseconds since the Unix epoch. A clock that is
/// set before the epoch reads as 0.
pub fn now_millis() -> (now: u128) {
    let now = SystemTime::now();
    match now.duration_since(unix_epoch()) {
        Ok(elapsed) => elapsed.as_millis(),
        Err(_) => 0,
    }
}

} // verus!
