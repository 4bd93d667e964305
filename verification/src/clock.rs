//! The wall clock (from `chrono`), read when transactions and blocks are
//! stamped.

use vstd::prelude::*;

verus! {

/// Calls `chrono::Utc::now` and returns its `timestamp`, the current Unix
/// time in seconds. It depends on the clock, so nothing is stated of it.
#[verifier::external_body]
pub(crate) fn current_unix_time() -> (seconds: i64) {
    chrono::Utc::now().timestamp()
}

} // verus!
