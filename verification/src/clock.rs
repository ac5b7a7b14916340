//! The clocks: the wall clock, and a monotonic clock read as milliseconds
//! since a starting instant.
use vstd::prelude::*;
use std::time::Instant;

verus! {

/// A point on std's monotonic clock. Nothing inside it is visible.
#[verifier::external_type_specification]
#[verifier::external_body]
pub struct ExInstant(std::time::Instant);

/// The later of two clock readings.
pub open spec fn later(a: i64, b: i64) -> i64 {
    if a > b {
        a
    } else {
        b
    }
}

/// Calls `chrono::DateTime::<Utc>::from(SystemTime::now()).timestamp_millis()`:
/// milliseconds since the Unix epoch at the call, negative for a clock set
/// before 1970 (chrono's conversion from `SystemTime` handles both sides of
/// the epoch; it fails only for a clock set outside chrono's range of about
/// 262,000 years around year 0). Nothing is claimed of the value, which
/// depends on the time.
#[verifier::external_body]
pub(crate) fn now_millis() -> i64 {
    chrono::DateTime::<chrono::Utc>::from(std::time::SystemTime::now()).timestamp_millis()
}

/// Calls `Instant::now()`: the current point on the monotonic clock.
#[verifier::external_body]
pub(crate) fn instant_now() -> Instant {
    Instant::now()
}

/// Calls `Instant::elapsed` on `origin` and takes its whole milliseconds
/// (`i64::MAX` should they not fit). The contract claims only that the
/// result is not negative; its value depends on the time.
#[verifier::external_body]
pub(crate) fn millis_since(origin: &Instant) -> (r: i64)
    ensures
        r >= 0,
{
    i64::try_from(origin.elapsed().as_millis()).unwrap_or(i64::MAX)
}

} // verus!
