use vstd::prelude::*;

verus! {

/// Relies on chrono's Utc::now and DateTime::timestamp_nanos_opt: the current
/// wall-clock instant, as non-leap nanoseconds since the Unix epoch. Nothing
/// is promised of the value (it is the clock). The None arm of
/// timestamp_nanos_opt is unreachable for a present-day clock reading (it
/// fires only outside the years 1677..=2262).
#[verifier::external_body]
fn now_nanos() -> i64 {
    chrono::Utc::now().timestamp_nanos_opt().unwrap_or(0)
}

/// Resolves a metric timestamp: a present timestamp (nanoseconds since the
/// Unix epoch) is kept exactly; a missing one is filled with the current wall
/// clock.
pub fn encode_timestamp(timestamp: Option<i64>) -> (r: i64)
    ensures
        timestamp is Some ==> r == timestamp->0,
{
    match timestamp {
        Some(n) => n,
        None => now_nanos(),
    }
}

} // verus!
