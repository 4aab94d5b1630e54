//! Points in time, and the one place where the wall clock is read.

use chrono::Utc;
use vstd::prelude::*;

verus! {

/// A point in time on the UTC time line, held as plain numbers: whole seconds
/// since the Unix epoch and the nanoseconds past that second.
///
/// The order logic never computes with a timestamp; it records the one it is
/// given and hands it back.
#[derive(Debug, Clone, Copy, PartialEq, Eq, PartialOrd, Ord, Hash, Structural)]
pub struct Timestamp {
    /// Whole seconds since 1970-01-01T00:00:00Z; negative before it.
    pub secs: i64,
    /// Nanoseconds since the last second boundary; 1_000_000_000 and more
    /// within a leap second.
    pub nanos: u32,
}

/// Reads the system clock through `chrono::Utc::now` and returns the reading
/// as seconds (`DateTime::timestamp`) and nanoseconds
/// (`DateTime::timestamp_subsec_nanos`).
///
/// Nothing is claimed of the value: two calls may return any two timestamps.
/// `chrono` panics when the system clock is set before the Unix epoch; no
/// argument can rule that out.
#[verifier::external_body]
pub(crate) fn now() -> (t: Timestamp) {
    let t = Utc::now();
    Timestamp { secs: t.timestamp(), nanos: t.timestamp_subsec_nanos() }
}

} // verus!
