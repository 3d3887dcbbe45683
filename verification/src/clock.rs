//! The timestamp of a request: seconds since the Unix epoch.

use std::time::{Duration, SystemTime, SystemTimeError, UNIX_EPOCH};
use vstd::prelude::*;

verus! {

/// The timestamp that stands in when the clock is set before the Unix epoch.
pub const FALLBACK_TIMESTAMP: u64 = 1_234_567_890;

/// `std::time::SystemTime`, held as an opaque value.
#[verifier::external_type_specification]
#[verifier::external_body]
pub struct ExSystemTime(SystemTime);

/// `std::time::SystemTimeError`, the error of a moment that lies in the future.
#[verifier::external_type_specification]
#[verifier::external_body]
pub struct ExSystemTimeError(SystemTimeError);

/// Whether a moment is the Unix epoch, `std::time::UNIX_EPOCH`.
pub uninterp spec fn is_unix_epoch(moment: SystemTime) -> bool;

/// The whole seconds of a duration, as `Duration::as_secs` gives them.
pub uninterp spec fn whole_seconds(duration: Duration) -> u64;

/// The whole seconds from an earlier moment to a later one, as
/// `SystemTime::duration_since` measures them; nothing where the moment called
/// earlier is the later of the two.
pub uninterp spec fn seconds_between(later: SystemTime, earlier: SystemTime) -> Option<u64>;

/// What the clock can read: the seconds from the Unix epoch to some moment, or
/// nothing for a moment before the epoch.
pub open spec fn is_clock_reading(elapsed: Option<u64>) -> bool {
    exists|moment: SystemTime, epoch: SystemTime|
        is_unix_epoch(epoch) && elapsed == #[trigger] seconds_between(moment, epoch)
}

/// The timestamp for a reading of the clock: the seconds that it gave, or the
/// fallback where it gave none.
pub open spec fn timestamp_of(elapsed: Option<u64>) -> u64 {
    match elapsed {
        Some(seconds) => seconds,
        None => FALLBACK_TIMESTAMP,
    }
}

/// What a timestamp can be: the timestamp for some reading of the clock.
pub open spec fn is_timestamp(timestamp: u64) -> bool {
    exists|elapsed: Option<u64>|
        is_clock_reading(elapsed) && timestamp == #[trigger] timestamp_of(elapsed)
}

/// `SystemTime::now` reads the system clock.
pub assume_specification[ SystemTime::now ]() -> (now: SystemTime)
;

/// `SystemTime::duration_since` gives the time from an earlier moment to this
/// one, or an error when that moment is the later of the two. Two given moments
/// always give the same answer.
pub assume_specification[ SystemTime::duration_since ](
    later: &SystemTime,
    earlier: SystemTime,
) -> (elapsed: Result<Duration, SystemTimeError>)
    ensures
        elapsed matches Ok(duration) ==> seconds_between(*later, earlier) == Some(
            whole_seconds(duration),
        ),
        elapsed is Err ==> seconds_between(*later, earlier) is None,
;

/// `Duration::as_secs` gives the whole seconds of a duration.
pub assume_specification[ Duration::as_secs ](duration: &Duration) -> (seconds: u64)
    ensures
        seconds == whole_seconds(*duration),
;

/// The Unix epoch, `std::time::UNIX_EPOCH`.
#[verifier::external_body]
fn unix_epoch() -> (epoch: SystemTime)
    ensures
        is_unix_epoch(epoch),
{
    UNIX_EPOCH
}

/// Chooses the timestamp: the seconds that have elapsed since the epoch where the
/// clock gave them, the fallback where it did not.
pub fn timestamp_or_fallback(elapsed: Option<u64>) -> (timestamp: u64)
    ensures
        timestamp == timestamp_of(elapsed),
{
    match elapsed {
        Some(seconds) => seconds,
        None => FALLBACK_TIMESTAMP,
    }
}

/// Reads the clock: the seconds since the Unix epoch, or nothing when the clock
/// is set before it.
pub fn seconds_since_epoch() -> (elapsed: Option<u64>)
    ensures
        is_clock_reading(elapsed),
{
    let now = SystemTime::now();
    let epoch = unix_epoch();
    match now.duration_since(epoch) {
        Ok(duration) => {
            let seconds = duration.as_secs();
            assert(Some(seconds) == seconds_between(now, epoch));
            Some(seconds)
        },
        Err(_) => {
            assert(None::<u64> == seconds_between(now, epoch));
            None
        },
    }
}

/// The current timestamp, with the fallback for a clock set before the epoch.
pub fn current_timestamp() -> (timestamp: u64)
    ensures
        is_timestamp(timestamp),
{
    let elapsed = seconds_since_epoch();
    let timestamp = timestamp_or_fallback(elapsed);
    assert(is_clock_reading(elapsed) && timestamp == timestamp_of(elapsed));
    timestamp
}

} // verus!
