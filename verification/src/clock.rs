//! The wall clock, in whole seconds since the Unix epoch.

use vstd::prelude::*;
use std::time::{Duration, SystemTime, SystemTimeError};

verus! {

/// The standard library's wall-clock instant.
#[verifier::external_type_specification]
#[verifier::external_body]
pub struct ExSystemTime(SystemTime);

/// The error for an instant that lies before the one it is measured from.
#[verifier::external_type_specification]
#[verifier::external_body]
pub struct ExSystemTimeError(SystemTimeError);

/// `SystemTime::now` reads the clock; nothing is claimed of the instant.
pub assume_specification[ SystemTime::now ]() -> SystemTime;

/// `SystemTime::duration_since` fails when `earlier` is later than the
/// instant; which way it goes depends on the clock, so nothing is claimed.
pub assume_specification[ SystemTime::duration_since ](
    t: &SystemTime,
    earlier: SystemTime,
) -> Result<Duration, SystemTimeError>;

/// `Duration::as_secs`: the whole seconds of a duration. A `Duration` is
/// opaque to the proofs, so nothing is claimed of the number.
pub assume_specification[ Duration::as_secs ](d: &Duration) -> u64;

/// `std::time::UNIX_EPOCH`, the instant that timestamps count from.
#[verifier::external_body]
fn unix_epoch() -> SystemTime {
    std::time::UNIX_EPOCH
}

/// The timestamp for a clock reading: the whole seconds elapsed since the
/// epoch, or 0 when the clock reads earlier than the epoch (`None`).
pub fn secs_or_zero(elapsed: Option<u64>) -> (r: u64)
    ensures
        r == match elapsed {
            Some(s) => s,
            None => 0,
        },
{
    match elapsed {
        Some(s) => s,
        None => 0,
    }
}

/// Seconds since the Unix epoch, or 0 when the clock reads earlier than the
/// epoch. The reading depends on the clock; what is made of it is
/// `secs_or_zero`.
pub fn unix_now() -> u64 {
    let elapsed = match SystemTime::now().duration_since(unix_epoch()) {
        Ok(d) => Some(d.as_secs()),
        Err(_) => None,
    };
    secs_or_zero(elapsed)
}

} // verus!
