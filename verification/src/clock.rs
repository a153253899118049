//! The wall clock, read as milliseconds since the Unix epoch.

use vstd::prelude::*;
use chrono::Utc;

verus! {

/// Relies on chrono::Utc::now (read as timestamp_millis): nothing is promised
/// about the clock's value.
#[verifier::external_body]
pub(crate) fn now_millis() -> (r: i64) {
    Utc::now().timestamp_millis()
}

} // verus!
