//! Reading the wall clock.

use std::time::{Duration, SystemTime, SystemTimeError, UNIX_EPOCH};
use vstd::prelude::*;

verus! {

/// `std::time::SystemTime`, carried as an opaque value.
#[verifier::external_type_specification]
#[verifier::external_body]
pub struct ExSystemTime(SystemTime);

/// `std::time::SystemTimeError`, carried as an opaque value.
#[verifier::external_type_specification]
#[verifier::external_body]
pub struct ExSystemTimeError(SystemTimeError);

/// `std::time::UNIX_EPOCH`, the instant from which timestamps are counted.
#[verifier::external_body]
fn unix_epoch() -> SystemTime {
    UNIX_EPOCH
}

/// `SystemTime::now` reads the system clock; nothing is known of the reading.
pub assume_specification[ SystemTime::now ]() -> SystemTime;

/// `SystemTime::duration_since` gives the time elapsed since `earlier`, or an
/// error where `earlier` is later than the reading.
pub assume_specification[ SystemTime::duration_since ](
    time: &SystemTime,
    earlier: SystemTime,
) -> Result<Duration, SystemTimeError>;

/// `Duration::as_nanos` gives the whole duration in nanoseconds.
pub assume_specification[ Duration::as_nanos ](duration: &Duration) -> u128;

/// The timestamp for a clock reading: the elapsed nanoseconds cut to their
/// low 64 bits, and 0 where the clock gave no reading.
pub open spec fn timestamp_of(elapsed_nanos: Option<u128>) -> u64 {
    match elapsed_nanos {
        Some(nanos) => (nanos % 0x1_0000_0000_0000_0000) as u64,
        None => 0,
    }
}

/// Turns a clock reading into a timestamp.
pub fn timestamp_from(elapsed_nanos: Option<u128>) -> (timestamp: u64)
    ensures
        timestamp == timestamp_of(elapsed_nanos),
{
    match elapsed_nanos {
        Some(nanos) => {
            let low: u128 = nanos % 0x1_0000_0000_0000_0000;
            low as u64
        },
        None => 0,
    }
}

/// Nanoseconds since the Unix epoch, by the system clock; 0 where the clock
/// stands before the epoch.
#[inline]
pub fn nanos_since_epoch() -> u64 {
    let reading = match SystemTime::now().duration_since(unix_epoch()) {
        Ok(elapsed) => Some(elapsed.as_nanos()),
        Err(_) => None,
    };
    timestamp_from(reading)
}

} // verus!
