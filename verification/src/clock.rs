//! The one reading of the wall clock: the creation stamp a committed
//! task carries.

use vstd::prelude::*;

verus! {

/// Relies on `chrono::Local::now` and `chrono::DateTime::to_rfc3339`:
/// the current local time, written as RFC 3339 text with a zone
/// offset. The value depends on the clock, so nothing is assumed of
/// it.
#[verifier::external_body]
pub fn now_rfc3339() -> (r: String) {
    chrono::Local::now().to_rfc3339()
}

} // verus!
