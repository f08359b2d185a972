use vstd::prelude::*;

verus! {

/// Relies on chrono's `Local::now` for the current local time as epoch
/// seconds. The result depends on the wall clock, so nothing is promised
/// of it; callers state what holds of every outcome.
#[verifier::external_body]
pub(crate) fn now_timestamp() -> i64 {
    chrono::offset::Local::now().timestamp()
}

/// Relies on chrono's `Local::now`, `DateTime::date_naive`,
/// `NaiveDate::and_time` and `NaiveDateTime::and_utc` for the epoch-second
/// timestamp of today's local midnight, the key of the daily statistics
/// bucket. The result depends on the wall clock and the machine's time
/// zone, so nothing is promised of it.
#[verifier::external_body]
pub(crate) fn today_midnight_timestamp() -> i64 {
    match chrono::NaiveTime::from_hms_opt(0, 0, 0) {
        Some(midnight) => chrono::offset::Local::now().date_naive().and_time(midnight).and_utc().timestamp(),
        None => 0,
    }
}

} // verus!
