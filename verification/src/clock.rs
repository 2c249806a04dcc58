//! The clock: the one source of wall time. Both functions depend on the
//! machine's clock, so their contracts promise nothing of their results;
//! the verified code states what holds whatever they return.

use vstd::prelude::*;

verus! {

/// Relies on `chrono::Local::now` and chrono's `format`: the current
/// local time rendered as `YYYY-MM-DDTHH:MM:SS`. The value depends on
/// the clock, so nothing is promised of it.
#[verifier::external_body]
pub(crate) fn get_timestamp() -> String {
    chrono::Local::now().format("%Y-%m-%dT%H:%M:%S").to_string()
}

/// Relies on `chrono::NaiveDateTime::parse_from_str`,
/// `chrono::Local::now` and `chrono::TimeDelta::num_seconds`: whether
/// `time_str`, read as a local `YYYY-MM-DDTHH:MM:SS` timestamp, lies
/// less than `seconds` whole seconds before the current clock; false
/// where `time_str` does not parse. The value depends on the clock, so
/// nothing is promised of it.
#[verifier::external_body]
pub(crate) fn is_within_seconds(time_str: &str, seconds: i64) -> bool {
    if let Ok(log_time) = chrono::NaiveDateTime::parse_from_str(time_str, "%Y-%m-%dT%H:%M:%S") {
        let now = chrono::Local::now().naive_local();
        let duration = now.signed_duration_since(log_time);
        duration.num_seconds() < seconds
    } else {
        false
    }
}

} // verus!
