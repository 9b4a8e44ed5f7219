//! Wall-clock time in milliseconds since the Unix epoch.
use std::time::{Duration, SystemTime, UNIX_EPOCH};
use vstd::prelude::*;

verus! {

#[verifier::external_type_specification]
#[verifier::external_body]
pub struct ExSystemTime(SystemTime);

/// `std::time::SystemTime::now`. Nothing is claimed of the time it reads.
#[verifier::external_body]
fn current_time() -> SystemTime {
    SystemTime::now()
}

/// `std::time::SystemTime::duration_since` the Unix epoch; `None` for a time before it. Nothing is
/// claimed of the duration, which rests on the clock.
#[verifier::external_body]
fn since_epoch(time: SystemTime) -> Option<Duration> {
    time.duration_since(UNIX_EPOCH).ok()
}

/// `std::time::Duration::as_millis`: the whole milliseconds of a duration. The duration has no
/// mathematical view here, so the number is left open.
#[verifier::external_body]
fn whole_millis(duration: Duration) -> u128 {
    duration.as_millis()
}

/// The timestamp for the milliseconds that a clock reports: zero for a clock before the epoch, the
/// largest timestamp for one that reports more.
pub fn timestamp_of(millis: Option<u128>) -> (r: i64)
    ensures
        r == match millis {
            Some(m) => if m <= i64::MAX {
                m as int
            } else {
                i64::MAX as int
            },
            None => 0int,
        },
{
    match millis {
        Some(m) => if m <= 0x7fff_ffff_ffff_ffff {
            m as i64
        } else {
            i64::MAX
        },
        None => 0,
    }
}

/// The current Unix timestamp in milliseconds. Never negative.
pub fn now_unix_timestamp_ms() -> (r: i64)
    ensures
        r >= 0,
{
    let millis: Option<u128> = match since_epoch(current_time()) {
        Some(d) => Some(whole_millis(d)),
        None => None,
    };
    timestamp_of(millis)
}

} // verus!
