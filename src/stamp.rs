//! Fresh identifiers and the wall clock.

use vstd::prelude::*;

verus! {

/// Relies on uuid's `Uuid::new_v4` (read as its 128-bit value): a random
/// identifier, of which nothing is promised.
#[verifier::external_body]
pub(crate) fn new_id() -> (r: u128) {
    uuid::Uuid::new_v4().as_u128()
}

/// Relies on chrono's `Utc::now` and `timestamp_millis`: the current time in
/// milliseconds since the Unix epoch, of which nothing is promised.
#[verifier::external_body]
pub(crate) fn now_millis() -> (r: i64) {
    chrono::Utc::now().timestamp_millis()
}

/// Relies on chrono's `Utc::now` and `timestamp_subsec_nanos`: the
/// nanoseconds since the last second boundary, of which nothing is promised
/// (a leap second may take it past a billion).
#[verifier::external_body]
pub(crate) fn now_subsec_nanos() -> (r: u32) {
    chrono::Utc::now().timestamp_subsec_nanos()
}

} // verus!
