//! Calendar dates and Unix timestamps, by the [`chrono`](https://docs.rs/chrono)
//! crate.
use vstd::prelude::*;

use crate::text::{decimal_int, decimal_int_text, text_option};

verus! {

/// How a date is written: `YYYY-MM-DD`.
pub const DATE_FORMAT: &'static str = "%Y-%m-%d";

/// The number of seconds in a day.
pub const DAY: i64 = 86_400;

/// Why a date cannot be read.
#[verifier::external_type_specification]
#[verifier::external_body]
pub struct ExParseError(chrono::ParseError);

/// The number of days from January 1, 1970 to the date that a text gives in a
/// format, or `None` where it gives none.
pub uninterp spec fn day_number(text: Seq<char>, format: Seq<char>) -> Option<int>;

/// The date so many days after January 1, 1970, written in a format, or `None`
/// where the calendar does not reach that far.
pub uninterp spec fn calendar_date(day: int, format: Seq<char>) -> Option<Seq<char>>;

/// `chrono::NaiveDate::parse_from_str`, and the Unix timestamp in UTC of a time of
/// that day: every day has 86,400 seconds.
#[verifier::external_body]
pub(crate) fn parse_timestamp(text: &str, format: &str, hour: u32, minute: u32, second: u32) -> (r:
    Result<i64, chrono::ParseError>)
    requires
        hour < 24,
        minute < 60,
        second < 60,
    ensures
        match day_number(text@, format@) {
            Some(day) => r matches Ok(t) && t == day * DAY + hour * 3600 + minute * 60 + second,
            None => r is Err,
        },
{
    let date = chrono::NaiveDate::parse_from_str(text, format)?;
    let time = chrono::NaiveTime::from_hms_opt(hour, minute, second).unwrap();
    Ok(date.and_time(time).and_utc().timestamp())
}

/// `chrono::DateTime::from_timestamp`, and the date in UTC written in the format:
/// it depends on the day alone.
#[verifier::external_body]
pub(crate) fn timestamp_date(timestamp: i64, format: &str) -> (date: Option<String>)
    requires
        format@ == DATE_FORMAT@,
    ensures
        text_option(date) == calendar_date(timestamp as int / DAY as int, format@),
{
    chrono::DateTime::from_timestamp(timestamp, 0).map(|dt| dt.format(format).to_string())
}

/// A Unix timestamp as a UTC calendar date, or as it is where the calendar does
/// not reach it.
pub open spec fn date_text(timestamp: int) -> Seq<char> {
    match calendar_date(timestamp / DAY as int, DATE_FORMAT@) {
        Some(date) => date,
        None => decimal_int(timestamp),
    }
}

/// The text for a timestamp whose date is given, if it has one.
pub fn date_or_number(date: Option<String>, timestamp: i64) -> (text: String)
    ensures
        text@ == (match date {
            Some(d) => d@,
            None => decimal_int(timestamp as int),
        }),
{
    match date {
        Some(date) => date,
        None => decimal_int_text(timestamp),
    }
}

/// Formats a Unix timestamp as a UTC calendar date.
pub fn format_date(timestamp: i64) -> (text: String)
    ensures
        text@ == date_text(timestamp as int),
{
    date_or_number(timestamp_date(timestamp, DATE_FORMAT), timestamp)
}

/// A timestamp has the date of the day it lies in, which is that many times 86,400 seconds
/// from January 1, 1970. Where the calendar does not reach the day it stands as a number.
pub proof fn timestamps_have_the_date_of_their_day(timestamp: int, day: int)
    requires
        day * 86_400 <= timestamp < (day + 1) * 86_400,
    ensures
        calendar_date(day, DATE_FORMAT@) matches Some(date) ==> date_text(timestamp) == date,
        calendar_date(day, DATE_FORMAT@) is None ==> date_text(timestamp) == decimal_int(timestamp),
{
    assert(timestamp / DAY as int == day);
}

/// All seconds of one day have the same date, where the calendar reaches it.
pub proof fn dates_are_days(a: int, b: int)
    requires
        a / DAY as int == b / DAY as int,
        calendar_date(a / DAY as int, DATE_FORMAT@) is Some,
    ensures
        date_text(a) == date_text(b),
{
}

} // verus!
