//! The wall clock, in milliseconds since the Unix epoch.

use std::time::{Duration, SystemTime, SystemTimeError, UNIX_EPOCH};
use vstd::prelude::*;

verus! {

/// `std::time::SystemTime`, a reading of the system clock.
#[verifier::external_type_specification]
#[verifier::external_body]
pub struct ExSystemTime(SystemTime);

/// `std::time::SystemTimeError`, which says that a reading lies before the one it is compared to.
#[verifier::external_type_specification]
#[verifier::external_body]
pub struct ExSystemTimeError(SystemTimeError);

/// `SystemTime::now`: the current reading of the system clock, of which nothing is promised.
pub assume_specification[ SystemTime::now ]() -> SystemTime
;

/// The nanoseconds from the Unix epoch to a reading of the clock, negative where the reading lies
/// before it.
pub uninterp spec fn epoch_nanos(now: SystemTime) -> int;

/// The nanoseconds that a duration lasts.
pub uninterp spec fn duration_nanos(elapsed: Duration) -> nat;

/// `SystemTime::duration_since`, from the Unix epoch on: the time from the epoch to the reading,
/// or an error where the reading lies before the epoch.
#[verifier::external_body]
fn duration_since_epoch(now: SystemTime) -> (result: Result<Duration, SystemTimeError>)
    ensures
        match result {
            Ok(elapsed) => epoch_nanos(now) >= 0 && duration_nanos(elapsed) == epoch_nanos(now),
            Err(_) => epoch_nanos(now) < 0,
        },
{
    now.duration_since(UNIX_EPOCH)
}

/// `Duration::as_millis`: the whole milliseconds of the duration.
#[verifier::external_body]
fn duration_millis(elapsed: &Duration) -> (result: u128)
    ensures
        result == duration_nanos(*elapsed) / 1_000_000,
{
    elapsed.as_millis()
}

/// The time stamp for the milliseconds since the epoch: their low 64 bits, and zero where the
/// clock stands before the epoch.
pub open spec fn stamp(millis: Option<u128>) -> u64 {
    match millis {
        Some(passed) => (passed % 0x1_0000_0000_0000_0000) as u64,
        None => 0,
    }
}

/// The time stamp of a reading of the clock.
pub open spec fn stamp_at(now: SystemTime) -> u64 {
    if epoch_nanos(now) >= 0 {
        stamp(Some((epoch_nanos(now) / 1_000_000) as u128))
    } else {
        stamp(None)
    }
}

/// The time stamp for the milliseconds that have passed since the epoch.
pub fn epoch_stamp(millis: Option<u128>) -> (result: u64)
    ensures
        result == stamp(millis),
{
    match millis {
        Some(passed) => (passed % 0x1_0000_0000_0000_0000) as u64,
        None => 0,
    }
}

/// The time stamp of the current reading of the clock.
pub fn unix_time_ms() -> (result: u64)
    ensures
        exists|now: SystemTime| result == #[trigger] stamp_at(now),
{
    let now = SystemTime::now();
    let ghost taken = now;
    let result = match duration_since_epoch(now) {
        Ok(elapsed) => epoch_stamp(Some(duration_millis(&elapsed))),
        Err(_) => epoch_stamp(None),
    };
    assert(result == stamp_at(taken));
    result
}

/// The stamp is the number of milliseconds as long as it fits, starts over after each 2^64 of them,
/// and is zero before the epoch.
pub proof fn stamps_are_milliseconds(passed: u128)
    ensures
        stamp(None) == 0,
        passed <= u64::MAX ==> stamp(Some(passed)) == passed,
        passed > u64::MAX ==> stamp(Some(passed)) == stamp(
            Some((passed - 0x1_0000_0000_0000_0000) as u128),
        ),
{
}

/// The stamp of a reading is that of the full milliseconds that have passed since the epoch by then.
pub proof fn readings_are_stamped(now: SystemTime, millis: u128)
    ensures
        epoch_nanos(now) < 0 ==> stamp_at(now) == 0,
        1_000_000 * millis <= epoch_nanos(now) < 1_000_000 * millis + 1_000_000 ==> {
            &&& stamp_at(now) == stamp(Some(millis))
            &&& millis <= u64::MAX ==> stamp_at(now) == millis
        },
{
}

} // verus!
