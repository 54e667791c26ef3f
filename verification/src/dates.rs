//! Calendar dates as the adapters read them, and the clock.

use vstd::prelude::*;
use chrono::Datelike;

verus! {

/// A day of the calendar.
#[derive(Clone, Copy, Debug, PartialEq, Eq)]
pub struct CalendarDate {
    pub year: i32,
    pub month: u32,
    pub day: u32,
}

/// The day that a text writes in a `strftime` format, where it writes one.
pub uninterp spec fn date_written(text: Seq<char>, format: Seq<char>) -> Option<CalendarDate>;

/// `chrono::NaiveDate::parse_from_str`: the day that the text holds in the
/// given format, or nothing where the text does not fit the format or names
/// no day of the calendar. The day is handed out as year, month and day; what
/// it is for a given text is named, not described.
#[verifier::external_body]
pub(crate) fn parse_date(text: &str, format: &str) -> (date: Option<CalendarDate>)
    ensures
        date == date_written(text@, format@),
{
    match chrono::NaiveDate::parse_from_str(text, format) {
        Ok(day) => Some(CalendarDate { year: day.year(), month: day.month(), day: day.day() }),
        Err(_) => None,
    }
}

/// `chrono::Utc::now` and `DateTime::to_rfc3339`: the present moment as an
/// RFC 3339 text. Nothing is claimed of the text.
#[verifier::external_body]
pub(crate) fn now_rfc3339() -> String {
    chrono::Utc::now().to_rfc3339()
}

} // verus!
