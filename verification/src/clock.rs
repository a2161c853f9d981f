//! The wall clock, in milliseconds since the Unix epoch.

use std::time::{Duration, SystemTime, SystemTimeError, UNIX_EPOCH};
use vstd::prelude::*;

verus! {

/// A reading of the wall clock.
#[verifier::external_type_specification]
#[verifier::external_body]
pub struct ExSystemTime(SystemTime);

/// What `SystemTime::duration_since` reports for a clock that is set before the given time.
#[verifier::external_type_specification]
#[verifier::external_body]
pub struct ExSystemTimeError(SystemTimeError);

/// `SystemTime::now` reads the clock. Nothing is known of the reading.
pub assume_specification[ SystemTime::now ]() -> SystemTime;

/// `SystemTime::duration_since` tells how far one reading lies behind another, and fails where it
/// lies before it. Nothing is claimed of either case, since readings are opaque.
pub assume_specification[ SystemTime::duration_since ](
    reading: &SystemTime,
    earlier: SystemTime,
) -> Result<Duration, SystemTimeError>;

/// `Duration::as_millis` gives the whole milliseconds of a span of time. Spans are opaque, so
/// nothing is claimed of their number.
pub assume_specification[ Duration::as_millis ](span: &Duration) -> u128;

/// `std::time::UNIX_EPOCH`, the start of 1970.
#[verifier::external_body]
fn unix_epoch() -> SystemTime {
    UNIX_EPOCH
}

/// A number of milliseconds in 64 bits; one that does not fit becomes the largest number.
pub open spec fn clamped(millis: u128) -> u64 {
    if millis <= u64::MAX {
        millis as u64
    } else {
        u64::MAX
    }
}

/// Whether the clock may be found to stand `elapsed` behind the Unix epoch: that is what
/// `SystemTime::duration_since` answers for a reading of the clock and the epoch.
pub closed spec fn may_have_elapsed(elapsed: Result<Duration, SystemTimeError>) -> bool {
    exists|reading: SystemTime, epoch: SystemTime| {
        &&& call_ensures(SystemTime::now, (), reading)
        &&& call_ensures(unix_epoch, (), epoch)
        &&& #[trigger] call_ensures(SystemTime::duration_since, (&reading, epoch), elapsed)
    }
}

/// Whether `time` is the time at which `elapsed` has passed since the Unix epoch: the span in
/// whole milliseconds, or none where the clock is set before the epoch.
pub open spec fn is_time_after(elapsed: Result<Duration, SystemTimeError>, time: Option<u64>) -> bool {
    match elapsed {
        Ok(span) => exists|millis: u128| {
            &&& #[trigger] call_ensures(Duration::as_millis, (&span,), millis)
            &&& time == Some(clamped(millis))
        },
        Err(_) => time is None,
    }
}

/// Whether `now` may be found to be the current time, in milliseconds since the Unix epoch.
pub open spec fn may_be_now(now: Option<u64>) -> bool {
    exists|elapsed: Result<Duration, SystemTimeError>|
        #[trigger] may_have_elapsed(elapsed) && is_time_after(elapsed, now)
}

/// Brings a number of milliseconds into 64 bits; what does not fit becomes the largest number.
pub fn clamp_millis(millis: u128) -> (clamped_millis: u64)
    ensures
        clamped_millis == clamped(millis),
        millis <= u64::MAX ==> clamped_millis as int == millis as int,
        millis > u64::MAX ==> clamped_millis as int == 0xffff_ffff_ffff_ffff,
{
    if millis <= u64::MAX as u128 {
        millis as u64
    } else {
        u64::MAX
    }
}

/// The time in milliseconds at which `elapsed` has passed since the Unix epoch, or `None` if the
/// clock is set before it.
pub fn time_after(elapsed: Result<Duration, SystemTimeError>) -> (time: Option<u64>)
    ensures
        is_time_after(elapsed, time),
{
    match elapsed {
        Ok(span) => Some(clamp_millis(span.as_millis())),
        Err(_) => None,
    }
}

/// The current time in milliseconds since the Unix epoch, or `None` if the clock is set before it.
pub fn current_time_ms() -> (time: Option<u64>)
    ensures
        may_be_now(time),
{
    let elapsed = SystemTime::now().duration_since(unix_epoch());
    assert(may_have_elapsed(elapsed));
    time_after(elapsed)
}

/// What may have elapsed is what lies between the epoch and a reading of the clock.
proof fn elapsed_time_is_read_from_the_clock(elapsed: Result<Duration, SystemTimeError>)
    requires
        may_have_elapsed(elapsed),
    ensures
        exists|reading: SystemTime, epoch: SystemTime| {
            &&& call_ensures(SystemTime::now, (), reading)
            &&& call_ensures(unix_epoch, (), epoch)
            &&& #[trigger] call_ensures(SystemTime::duration_since, (&reading, epoch), elapsed)
        },
{
}

} // verus!
