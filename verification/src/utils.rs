//! The wall clock.
use std::time::UNIX_EPOCH;
use vstd::prelude::*;

verus! {

/// `std::time::SystemTime::elapsed` on the Unix epoch, in whole seconds:
/// `None` where the clock stands before the epoch. Nothing is claimed of the
/// value: two calls may give any two results.
#[verifier::external_body]
fn since_epoch() -> Option<u64> {
    match UNIX_EPOCH.elapsed() {
        Ok(elapsed) => Some(elapsed.as_secs()),
        Err(_) => None,
    }
}

/// The current time in seconds since the Unix epoch. A clock that stands
/// before the epoch is read as the epoch itself, zero.
pub fn time() -> u64 {
    match since_epoch() {
        Some(seconds) => seconds,
        None => 0,
    }
}

} // verus!
