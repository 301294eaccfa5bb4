//! Wall-clock instants as plain values.
use vstd::prelude::*;

verus! {

/// An instant in UTC: whole seconds since the Unix epoch and the
/// nanoseconds past that second.
#[derive(Copy, Clone, Debug, PartialEq, Eq, Structural)]
pub struct Timestamp {
    pub secs: i64,
    pub nanos: u32,
}

/// The current UTC time, read through `chrono::Utc::now`.
///
/// Trusted: `chrono::Utc::now` builds the instant from the system clock's
/// distance to the Unix epoch (and panics if the clock stands before it,
/// or beyond the years chrono can represent),
/// so the seconds are not negative and the sub-second part is below one
/// second. Which instant comes back is not stated: it is the clock's.
#[verifier::external_body]
pub(crate) fn utc_now() -> (t: Timestamp)
    ensures
        t.secs >= 0,
        t.nanos < 1_000_000_000,
{
    let now = chrono::Utc::now();
    Timestamp { secs: now.timestamp(), nanos: now.timestamp_subsec_nanos() }
}

} // verus!
