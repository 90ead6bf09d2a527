//! The wall clock, behind a trusted boundary.

use vstd::prelude::*;

verus! {

/// Relies on `chrono::Utc::now` and `chrono::DateTime::timestamp_micros`: the
/// current wall-clock time in microseconds since the Unix epoch. The value
/// depends on when the call runs, so nothing is assumed of it.
#[verifier::external_body]
pub(crate) fn now_micros() -> i64 {
    chrono::Utc::now().timestamp_micros()
}

} // verus!
