//! The wall clock.

use std::time::{SystemTime, UNIX_EPOCH};
use vstd::prelude::*;

verus! {

/// Reads the system clock with `SystemTime::now` and gives the time since the
/// Unix epoch in nanoseconds, or `None` where the clock stands before it.
///
/// Trusted, and nothing is claimed: the result is whatever the clock says.
#[verifier::external_body]
pub(crate) fn unix_time_nanos() -> (elapsed: Option<u128>) {
    match SystemTime::now().duration_since(UNIX_EPOCH) {
        Ok(since_epoch) => Some(since_epoch.as_nanos()),
        Err(_) => None,
    }
}

} // verus!
