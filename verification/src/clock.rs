//! The local clock, bound to an outside crate.

use vstd::prelude::*;

verus! {

/// Relies on chrono::Local::now, DateTime::timestamp, and
/// FixedOffset::local_minus_utc: the current Unix seconds and the local
/// timezone's offset from UTC in seconds, which that crate constructs
/// strictly within one day of UTC.
#[verifier::external_body]
pub(crate) fn local_timestamp_and_offset() -> (r: (i64, i32))
    ensures
        -86400 < r.1 < 86400,
{
    let now = chrono::Local::now();
    (now.timestamp(), now.offset().local_minus_utc())
}

} // verus!
