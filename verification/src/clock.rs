//! The clock of the machine.

use crate::timestamp::Timestamp;
use vstd::prelude::*;

verus! {

/// Calls `time::OffsetDateTime::now_utc` and reads the instant it gives with
/// `unix_timestamp_nanos`. Trusted, and nothing is claimed of the result:
/// two calls may give any two instants.
#[verifier::external_body]
pub(crate) fn now_utc() -> (now: Timestamp) {
    Timestamp { nanos: time::OffsetDateTime::now_utc().unix_timestamp_nanos() }
}

} // verus!
