//! The wall clock, read through `chrono`.

use vstd::prelude::*;

verus! {

/// `chrono::Utc::now` and `timestamp_millis`: the present moment in
/// milliseconds since the Unix epoch. Nothing is promised of the value: every
/// caller must be right for any reading of the clock.
#[verifier::external_body]
pub(crate) fn now_millis() -> (now: i64) {
    chrono::Utc::now().timestamp_millis()
}

} // verus!
