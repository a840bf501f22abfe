//! The wall clock.

use vstd::prelude::*;

verus! {

/// `std::time::SystemTime::now`, in nanoseconds since the Unix epoch; zero before it.
/// Nothing is promised of the time.
#[verifier::external_body]
pub(crate) fn now_nanos() -> (nanos: u128) {
    std::time::SystemTime::now()
        .duration_since(std::time::UNIX_EPOCH)
        .map(|elapsed| elapsed.as_nanos())
        .unwrap_or_default()
}

/// The time in whole milliseconds since the Unix epoch.
pub(crate) fn now_millis() -> (millis: u128) {
    now_nanos() / 1_000_000
}

/// The time in whole seconds since the Unix epoch.
pub(crate) fn now_seconds() -> (seconds: i64) {
    let seconds: u128 = now_nanos() / 1_000_000_000;
    if seconds <= 0x7FFF_FFFF_FFFF_FFFF {
        seconds as i64
    } else {
        0x7FFF_FFFF_FFFF_FFFF
    }
}

} // verus!
