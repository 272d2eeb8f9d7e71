//! The current date and time, read from the system clock.
use chrono::{Datelike, Timelike};
use vstd::prelude::*;

use crate::model::{Date, Timestamp};

verus! {

/// Today's date in the local time zone, from chrono's `Local::now()` and
/// `date_naive()`. The result depends on the clock, so nothing is claimed of
/// it but what chrono guarantees of every date it gives: a day that exists
/// in the calendar, within the years `NaiveDate` holds (`Utc::now()`, under
/// `Local::now()`, panics on a clock before 1970, so the year is not
/// negative).
#[verifier::external_body]
pub(crate) fn today() -> (r: Date)
    ensures
        1 <= r.month <= 12,
        1 <= r.day <= 31,
        crate::ops::backlog::calendar_date(r),
{
    let d = chrono::Local::now().date_naive();
    Date { year: d.year() as u32, month: d.month(), day: d.day() }
}

/// The current moment in UTC, to the second, from chrono's `Utc::now()`.
/// The result depends on the clock, so nothing is claimed of it but what
/// chrono guarantees of every moment: a day that exists in the calendar
/// (the call panics on a clock before 1970, so the year is not negative),
/// an hour below 24, a minute below 60 and a second below 60.
#[verifier::external_body]
pub(crate) fn now_utc() -> (r: Timestamp)
    ensures
        crate::ops::backlog::calendar_date(r.date),
        1 <= r.date.month <= 12,
        1 <= r.date.day <= 31,
        r.hour < 24,
        r.minute < 60,
        r.second < 60,
{
    let n = chrono::Utc::now();
    Timestamp {
        date: Date { year: n.year() as u32, month: n.month(), day: n.day() },
        hour: n.hour(),
        minute: n.minute(),
        second: n.second(),
    }
}

} // verus!
