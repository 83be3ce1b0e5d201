//! The wall clock, read in whole seconds since the Unix epoch.

use std::time::{Duration, SystemTime};
use vstd::prelude::*;

verus! {

/// `std::time::SystemTime`, a point in time as the system clock gives it.
/// Nothing is known of what a value holds.
#[verifier::external_type_specification]
#[verifier::external_body]
pub struct ExSystemTime(SystemTime);

/// `SystemTime::now` reads the system clock. Nothing is claimed of the time
/// that it returns: two calls may give any two values.
pub assume_specification[ SystemTime::now ]() -> (t: SystemTime)
;

/// `Duration::as_secs` gives the whole seconds of a duration. Nothing is
/// claimed of their number.
pub assume_specification[ Duration::as_secs ](d: &Duration) -> (secs: u64)
;

/// Calls `SystemTime::duration_since` with `UNIX_EPOCH`: the time that has
/// passed since the epoch, or `None` where `t` lies before it. Nothing is
/// claimed of the duration.
#[verifier::external_body]
fn since_epoch(t: &SystemTime) -> (elapsed: Option<Duration>) {
    match t.duration_since(std::time::UNIX_EPOCH) {
        Ok(elapsed) => Some(elapsed),
        Err(_) => None,
    }
}

/// The timestamp that stands for `secs` seconds since the epoch: timestamps
/// are 32 bits wide and wrap.
pub open spec fn timestamp(secs: u64) -> u32 {
    (secs % 0x1_0000_0000) as u32
}

/// The timestamp of `secs` seconds since the epoch.
pub fn timestamp_of(secs: u64) -> (t: u32)
    ensures
        t == timestamp(secs),
{
    (secs % 0x1_0000_0000) as u32
}

/// The current time as a timestamp. A clock set before the epoch reads as
/// the epoch itself.
pub fn unix_now() -> (t: u32) {
    let now = SystemTime::now();
    let elapsed = match since_epoch(&now) {
        Some(elapsed) => Some(elapsed.as_secs()),
        None => None,
    };
    timestamp_of_reading(elapsed)
}

/// The timestamp that a reading of the clock stands for, `elapsed` being the
/// whole seconds since the epoch, or `None` where the clock lies before the
/// epoch: such a clock reads as the epoch itself.
pub open spec fn reading(elapsed: Option<u64>) -> u32 {
    match elapsed {
        Some(secs) => timestamp(secs),
        None => 0,
    }
}

/// The timestamp of a reading of the clock.
pub fn timestamp_of_reading(elapsed: Option<u64>) -> (t: u32)
    ensures
        t == reading(elapsed),
{
    match elapsed {
        Some(secs) => timestamp_of(secs),
        None => 0,
    }
}

} // verus!
