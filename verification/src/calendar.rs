//! Dates: the day on which a moment of the canister's clock falls, and the
//! month before a month.

use vstd::prelude::*;
use time::OffsetDateTime;

verus! {

/// A day of the calendar.
#[derive(Clone, Copy, Debug, PartialEq, Eq, Structural)]
pub struct Date {
    pub year: i32,
    pub month: u8,
    pub day: u8,
}

/// The UTC day on which a moment falls, given in nanoseconds since the Unix
/// epoch, or `None` where the calendar does not reach that far.
pub uninterp spec fn date_of(nanos: u64) -> Option<Date>;

/// `OffsetDateTime::from_unix_timestamp_nanos`, with `year`, `month` and
/// `day` of what it gives: the date of the moment, whose month is one of
/// the twelve and whose day is between 1 and 31.
#[verifier::external_body]
pub(crate) fn civil_date(nanos: u64) -> (r: Option<Date>)
    ensures
        r == date_of(nanos),
        r is Some ==> 1 <= r->0.month <= 12 && 1 <= r->0.day <= 31,
{
    match OffsetDateTime::from_unix_timestamp_nanos(i128::from(nanos)) {
        Ok(t) => Some(Date { year: t.year(), month: u8::from(t.month()), day: t.day() }),
        Err(_) => None,
    }
}

/// The month before `(year, month)`: December of the year before for a
/// January, the month before in the same year otherwise; `None` where the
/// month is none of the twelve or the year before does not exist.
pub open spec fn previous_month_spec(year: i32, month: u8) -> Option<(i32, u8)> {
    if month < 1 || month > 12 {
        None
    } else if month == 1 {
        if year == i32::MIN {
            None
        } else {
            Some(((year - 1) as i32, 12u8))
        }
    } else {
        Some((year, (month - 1) as u8))
    }
}

/// The year and month before the given ones.
pub fn previous_month(year: i32, month: u8) -> (r: Option<(i32, u8)>)
    ensures
        r == previous_month_spec(year, month),
{
    if month < 1 || month > 12 {
        None
    } else if month == 1 {
        if year == i32::MIN {
            None
        } else {
            Some((year - 1, 12))
        }
    } else {
        Some((year, month - 1))
    }
}

} // verus!
