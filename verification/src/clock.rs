//! The wall clock, read in whole seconds.

use vstd::prelude::*;

verus! {

/// `std::time::SystemTime`, a reading of the system clock. Nothing of what
/// it holds is known here.
#[verifier::external_type_specification]
#[verifier::external_body]
pub struct ExSystemTime(std::time::SystemTime);

/// `std::time::SystemTimeError`, the error of a time span that would be
/// negative. Nothing of what it holds is known here.
#[verifier::external_type_specification]
#[verifier::external_body]
pub struct ExSystemTimeError(std::time::SystemTimeError);

/// `SystemTime::now` reads the system clock. Nothing is claimed of the
/// reading.
pub assume_specification[ std::time::SystemTime::now ]() -> (now: std::time::SystemTime)
;

/// `SystemTime::duration_since` gives the time that has passed since
/// `earlier`, or an error where `earlier` is the later of the two. Nothing
/// is claimed of which it is.
pub assume_specification[ std::time::SystemTime::duration_since ](
    this: &std::time::SystemTime,
    earlier: std::time::SystemTime,
) -> (elapsed: Result<std::time::Duration, std::time::SystemTimeError>)
;

/// `Duration::as_secs` gives the whole seconds that the duration holds.
/// Nothing is claimed of their number.
pub assume_specification[ std::time::Duration::as_secs ](span: &std::time::Duration) -> (seconds:
    u64)
;

/// `std::time::UNIX_EPOCH`, the moment from which system time is counted.
#[verifier::external_body]
fn unix_epoch() -> (epoch: std::time::SystemTime) {
    std::time::UNIX_EPOCH
}

/// The number of seconds in a day.
pub const SECONDS_PER_DAY: u64 = 86400;

/// The whole seconds that have passed since the start of 1970, as the system
/// clock has them; zero where the clock stands before that.
pub fn seconds_since_epoch() -> (seconds: u64) {
    let now = std::time::SystemTime::now();
    match now.duration_since(unix_epoch()) {
        Ok(elapsed) => elapsed.as_secs(),
        Err(_) => 0,
    }
}

/// The whole days in the seconds that have passed since the start of 1970.
pub fn days_since_epoch() -> (days: u64)
    ensures
        exists|seconds: u64| days == #[trigger] days_in(seconds),
{
    let seconds = seconds_since_epoch();
    assert(seconds / SECONDS_PER_DAY == days_in(seconds));
    seconds / SECONDS_PER_DAY
}

/// The whole days in `seconds` seconds.
pub open spec fn days_in(seconds: u64) -> u64 {
    seconds / SECONDS_PER_DAY
}

} // verus!
