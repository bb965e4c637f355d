//! The wall clock, in milliseconds since the Unix epoch.

use std::time::{Duration, UNIX_EPOCH};
use vstd::prelude::*;

verus! {

/// The whole milliseconds that a duration holds.
pub uninterp spec fn duration_as_millis(d: Duration) -> u128;

/// `Duration::as_millis` returns the whole milliseconds of the duration; it
/// depends on the duration alone.
pub assume_specification[ Duration::as_millis ](d: &Duration) -> (ms: u128)
    ensures
        ms == duration_as_millis(*d),
;

/// `SystemTime::elapsed` on the Unix epoch: the time that has passed since
/// the epoch, or nothing when the system clock stands before it. Nothing is
/// claimed of the value: it is the machine's time.
#[verifier::external_body]
fn since_epoch() -> (r: Option<Duration>) {
    match UNIX_EPOCH.elapsed() {
        Ok(d) => Some(d),
        Err(_) => None,
    }
}

/// The milliseconds that stand for a reading of the clock: those of the
/// time since the epoch, and zero for a clock that stands before it.
pub open spec fn reading_millis(elapsed: Option<Duration>) -> u128 {
    match elapsed {
        Some(d) => duration_as_millis(d),
        None => 0,
    }
}

/// Turns a reading of the clock into milliseconds.
pub fn millis_of(elapsed: Option<Duration>) -> (r: u128)
    ensures
        r == reading_millis(elapsed),
{
    match elapsed {
        Some(d) => d.as_millis(),
        None => 0,
    }
}

/// The current time in milliseconds since the Unix epoch; zero when the
/// system clock stands before the epoch.
pub fn unix_millis() -> u128 {
    millis_of(since_epoch())
}

} // verus!
