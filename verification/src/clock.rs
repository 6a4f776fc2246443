//! Wall-clock access for event timestamps.

use vstd::prelude::*;
use std::time::SystemTime;
use std::time::UNIX_EPOCH;

verus! {

/// Relies on `std::time::SystemTime::now` and
/// `SystemTime::duration_since(UNIX_EPOCH)`: the nanoseconds elapsed
/// since the Unix epoch, or 0 if the clock reads before the epoch.
/// Nothing can be promised of a wall-clock reading.
#[verifier::external_body]
fn epoch_nanos() -> u128 {
    match SystemTime::now().duration_since(UNIX_EPOCH) {
        Ok(d) => d.as_nanos(),
        Err(_) => 0,
    }
}

/// The current time in nanoseconds since the Unix epoch. A wall clock
/// can read anything, so nothing is stated of the result; the event
/// log makes its own timestamps non-decreasing by clamping.
pub fn current_timestamp_ns() -> (r: u128) {
    epoch_nanos()
}

} // verus!
