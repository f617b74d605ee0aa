//! Timestamps.

use vstd::prelude::*;
use std::time::{Duration, SystemTime, SystemTimeError};

verus! {

/// `std::time::SystemTime`.
#[verifier::external_type_specification]
#[verifier::external_body]
pub struct ExSystemTime(SystemTime);

/// `std::time::SystemTimeError`.
#[verifier::external_type_specification]
#[verifier::external_body]
pub struct ExSystemTimeError(SystemTimeError);

/// The nanoseconds from the Unix epoch to a time; negative before the epoch.
pub uninterp spec fn epoch_nanos(t: SystemTime) -> int;

/// The nanoseconds of a duration.
pub uninterp spec fn duration_nanos(d: Duration) -> nat;

/// `SystemTime::now` reads the system's clock.
pub assume_specification[ SystemTime::now ]() -> (r: SystemTime)
;

/// `SystemTime::duration_since` with the Unix epoch: the time since the epoch, or
/// an error where the time lies before it.
#[verifier::external_body]
fn since_epoch(t: &SystemTime) -> (r: Result<Duration, SystemTimeError>)
    ensures
        match r {
            Ok(d) => epoch_nanos(*t) == duration_nanos(d),
            Err(_) => epoch_nanos(*t) < 0,
        },
{
    t.duration_since(std::time::UNIX_EPOCH)
}

/// `Duration::as_micros`: the whole microseconds of a duration.
pub assume_specification[ Duration::as_micros ](d: &Duration) -> (r: u128)
    ensures
        r == duration_nanos(*d) / 1000,
;

/// `Duration::as_secs`: the whole seconds of a duration.
pub assume_specification[ Duration::as_secs ](d: &Duration) -> (r: u64)
    ensures
        r == duration_nanos(*d) / 1_000_000_000,
;

/// The timestamp of a time: whole microseconds since the Unix epoch in 64 bits,
/// zero before the epoch.
pub open spec fn stamp(t: SystemTime) -> int {
    if epoch_nanos(t) < 0 {
        0
    } else {
        epoch_nanos(t) / 1000 % 0x1_0000_0000_0000_0000
    }
}

/// The timestamp of a time.
pub fn timestamp_us(t: &SystemTime) -> (r: u64)
    ensures
        r == stamp(*t),
{
    match since_epoch(t) {
        Ok(d) => {
            let m: u128 = d.as_micros();
            (m % 0x1_0000_0000_0000_0000) as u64
        },
        Err(_) => 0,
    }
}

/// The timestamp of the present moment: that of the time which the clock shows. Which
/// time that is, is the machine's affair.
pub fn current_time_us() -> (r: u64)
    ensures
        exists|t: SystemTime| r == #[trigger] stamp(t),
{
    let t: SystemTime = SystemTime::now();
    timestamp_us(&t)
}

/// The whole seconds from the Unix epoch to a time, zero before the epoch.
pub fn epoch_secs(t: &SystemTime) -> (r: u64)
    ensures
        r == if epoch_nanos(*t) < 0 {
            0
        } else {
            epoch_nanos(*t) / 1_000_000_000
        },
{
    match since_epoch(t) {
        Ok(d) => d.as_secs(),
        Err(_) => 0,
    }
}

/// A timestamp counts whole microseconds from the epoch on: the thousandth part of the
/// nanoseconds, rounded down, as far as 64 bits hold it; a time before the epoch is zero.
pub proof fn law_timestamp_counts_microseconds(t: SystemTime)
    ensures
        epoch_nanos(t) < 0 ==> stamp(t) == 0,
        0 <= epoch_nanos(t) < 1000 * 0x1_0000_0000_0000_0000 ==> 1000 * stamp(t) <= epoch_nanos(t)
            < 1000 * stamp(t) + 1000,
        0 <= stamp(t) <= u64::MAX,
        epoch_nanos(t) >= 0 ==> (epoch_nanos(t) / 1000 - stamp(t)) % 0x1_0000_0000_0000_0000 == 0,
{
}

} // verus!
