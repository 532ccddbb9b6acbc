//! Moments and the time between them.
//!
//! Durations are measured on a clock that counts nanoseconds from an arbitrary start and never
//! goes back; documents carry moments in UTC.

use crate::protocol::Timestamp;
use vstd::prelude::*;

verus! {

/// The nanoseconds in a second.
pub const SECOND: u64 = 1_000_000_000;

/// The nanoseconds in a millisecond.
pub const MILLISECOND: u64 = 1_000_000;

/// The nanoseconds from one moment to another, or none where the second is the earlier one.
pub open spec fn elapsed(since: u64, now: u64) -> u64 {
    if now < since {
        0
    } else {
        (now - since) as u64
    }
}

/// The nanoseconds from one moment to another, or none where the second is the earlier one.
pub fn elapsed_between(since: u64, now: u64) -> (nanos: u64)
    ensures
        nanos == elapsed(since, now),
{
    now.saturating_sub(since)
}

/// `chrono::Utc::now` tells the present moment: of it only that it is not before 1970 and that its
/// nanoseconds are less than a second. It panics where the system's clock stands before 1970,
/// which no argument can rule out.
#[verifier::external_body]
pub(crate) fn utc_now() -> (moment: Timestamp)
    ensures
        moment.seconds >= 0,
        moment.nanos < 1_000_000_000,
{
    let now = chrono::Utc::now();
    Timestamp { seconds: now.timestamp(), nanos: now.timestamp_subsec_nanos() }
}

} // verus!
