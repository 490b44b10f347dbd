//! The collector's only window on the wall clock and the local calendar.
//! Every function here is a trusted wrapper over chrono; nothing exact can
//! be promised of a clock or of the machine's time zone, so callers take
//! these values as inputs and are verified for every value.

use chrono::TimeZone;
use vstd::prelude::*;

verus! {

/// Relies on chrono's `Utc::now` and `DateTime::timestamp_millis`: the
/// current wall clock as milliseconds since the Unix epoch. The clock may
/// move arbitrarily between calls.
#[verifier::external_body]
pub fn current_ts_ms() -> i64 {
    chrono::Utc::now().timestamp_millis()
}

/// Relies on chrono's `Local::now` and `DateTime::format`: the current
/// local minute as `YYYY-MM-DD HH:MM`. The pattern pads every field, so
/// the label has at least sixteen characters.
#[verifier::external_body]
pub fn current_minute() -> (r: String)
    ensures
        r@.len() >= 16,
{
    chrono::Local::now().format("%Y-%m-%d %H:%M").to_string()
}

/// Relies on chrono's `DateTime::from_timestamp_millis`, `with_timezone`,
/// `date_naive`, `and_hms_opt` and `TimeZone::from_local_datetime`: the
/// local midnight, in epoch milliseconds, of the local day containing
/// `now_ms`. Where the calendar conversion has no answer, `now_ms` itself
/// comes back.
#[verifier::external_body]
pub fn local_day_start_ms(now_ms: i64) -> i64 {
    let now_utc = match chrono::DateTime::<chrono::Utc>::from_timestamp_millis(now_ms) {
        Some(v) => v,
        None => return now_ms,
    };
    let now_local = now_utc.with_timezone(&chrono::Local);
    let midnight = match now_local.date_naive().and_hms_opt(0, 0, 0) {
        Some(m) => m,
        None => return now_ms,
    };
    let mapped = chrono::Local.from_local_datetime(&midnight);
    match mapped.single().or(mapped.earliest()).or(mapped.latest()) {
        Some(t) => t.timestamp_millis(),
        None => now_ms,
    }
}

/// Relies on chrono's `DateTime::from_timestamp_millis`, `with_timezone`
/// and `DateTime::format`: the local calendar date of an epoch
/// millisecond as `YYYY-MM-DD`, at least ten characters, or `None` when
/// the millisecond lies outside chrono's representable range.
#[verifier::external_body]
pub fn local_date_of_ms(ts_ms: i64) -> (r: Option<String>)
    ensures
        r is Some ==> r.unwrap()@.len() >= 10,
{
    let utc = chrono::DateTime::<chrono::Utc>::from_timestamp_millis(ts_ms)?;
    Some(utc.with_timezone(&chrono::Local).format("%Y-%m-%d").to_string())
}

} // verus!
