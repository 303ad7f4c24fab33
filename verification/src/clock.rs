//! The time of day.

use vstd::prelude::*;

verus! {

/// The present time in microseconds since the Unix epoch, read from
/// `chrono::Utc::now` and counted by `chrono::DateTime::timestamp_micros`.
/// Nothing is claimed of the value: it is whatever the system clock says.
/// `chrono` does not return where the clock stands before the epoch.
#[verifier::external_body]
pub(crate) fn now_micros() -> i64 {
    chrono::Utc::now().timestamp_micros()
}

} // verus!
