//! The wall clock, read through the `time` crate.

use vstd::prelude::*;

verus! {

/// Relies on `time::UtcDateTime::now` and `unix_timestamp`: the current
/// UTC time as whole seconds since the Unix epoch, negative on a clock set
/// before the epoch. Nothing further can be promised of a clock reading.
#[verifier::external_body]
fn unix_now() -> (t: i64) {
    time::UtcDateTime::now().unix_timestamp()
}

/// The current UTC time in whole seconds since the Unix epoch; a clock set
/// before the epoch reads as zero.
pub fn now_seconds() -> (t: u64) {
    let raw = unix_now();
    if raw >= 0 {
        raw as u64
    } else {
        0
    }
}

} // verus!
