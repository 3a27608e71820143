//! Calendar view of a Unix timestamp.
//!
//! Due-date decisions are made over calendar fields (year, month, day, ISO
//! week), not elapsed seconds. The conversion from a timestamp to those
//! fields is done by the `chrono` crate behind one trusted wrapper; all
//! decisions over the fields are verified.

use vstd::prelude::*;

verus! {

/// Latest supported timestamp: 9999-12-31T23:59:59 UTC.
pub const TS_MAX: i64 = 253402300799;

/// Timestamps the library accepts: from the Unix epoch through year 9999,
/// well inside the range `chrono` documents for `DateTime::from_timestamp`.
pub open spec fn ts_in_range(ts: i64) -> bool {
    0 <= ts <= TS_MAX
}

/// The calendar fields of one instant, in UTC.
#[derive(Clone, Copy, Debug, PartialEq, Eq, Structural)]
pub struct DateInfo {
    pub year: i32,
    /// Calendar month, 1 through 12.
    pub month: u32,
    /// Day of the month, 1 through 31.
    pub day: u32,
    /// ISO 8601 week number, 1 through 53.
    pub iso_week: u32,
}

impl DateInfo {
    /// Field ranges that any real calendar date satisfies.
    pub open spec fn valid(self) -> bool {
        1 <= self.month <= 12 && 1 <= self.day <= 31 && 1 <= self.iso_week <= 53
    }
}

/// The calendar fields chrono computes for a timestamp.
pub uninterp spec fn date_info_of(ts: int) -> DateInfo;

/// Relies on chrono 0.4: `DateTime::from_timestamp` returns `Some` for an
/// in-range number of seconds, and `Datelike::{year, month, day}` and
/// `NaiveDate::iso_week` return the calendar fields of that instant in UTC
/// (month 1-12, day 1-31, ISO week 1-53).
#[verifier::external_body]
pub fn timestamp_date_info(ts: i64) -> (r: DateInfo)
    requires
        ts_in_range(ts),
    ensures
        r == date_info_of(ts as int),
        r.valid(),
{
    let dt = chrono::DateTime::from_timestamp(ts, 0).expect("timestamp within supported range");
    let d = dt.date_naive();
    DateInfo {
        year: chrono::Datelike::year(&d),
        month: chrono::Datelike::month(&d),
        day: chrono::Datelike::day(&d),
        iso_week: chrono::Datelike::iso_week(&d).week(),
    }
}

/// Strictly later calendar date, compared as (year, month, day).
pub open spec fn date_after(a: DateInfo, b: DateInfo) -> bool {
    ||| a.year > b.year
    ||| (a.year == b.year && a.month > b.month)
    ||| (a.year == b.year && a.month == b.month && a.day > b.day)
}

/// Executable calendar-date comparison.
pub fn date_is_after(a: &DateInfo, b: &DateInfo) -> (r: bool)
    ensures
        r == date_after(*a, *b),
{
    if a.year != b.year {
        a.year > b.year
    } else if a.month != b.month {
        a.month > b.month
    } else {
        a.day > b.day
    }
}

} // verus!
