//! Calendar timestamps at minute resolution and their textual form.

use chrono::{Datelike, Timelike};
use vstd::prelude::*;

verus! {

/// A calendar date and time of day at minute resolution, without a time zone.
#[derive(Clone, Copy, Debug, PartialEq, Eq, Structural)]
pub struct Timestamp {
    pub year: i32,
    pub month: u32,
    pub day: u32,
    pub hour: u32,
    pub minute: u32,
}

/// The layout in which timestamps are written: day/month/year hour:minute,
/// on a 24-hour clock and without seconds.
pub const TIMESTAMP_FORMAT: &'static str = "%d/%m/%Y %H:%M";

/// What `chrono::NaiveDateTime::parse_from_str` makes of `text` under the
/// layout `format`: `None` where it reports an error, otherwise the calendar
/// fields of the date-time it returns, down to the minute.
pub uninterp spec fn datetime_parsed(text: Seq<char>, format: Seq<char>) -> Option<Timestamp>;

/// The timestamp that `text` denotes in the layout [`TIMESTAMP_FORMAT`], if any.
pub open spec fn parsed_timestamp(text: Seq<char>) -> Option<Timestamp> {
    datetime_parsed(text, TIMESTAMP_FORMAT@)
}

/// Whether `year` is a leap year of the proleptic Gregorian calendar.
pub open spec fn is_leap_year(year: int) -> bool {
    year % 4 == 0 && (year % 100 != 0 || year % 400 == 0)
}

/// The number of days of the month `month` (1 to 12) in the year `year`.
pub open spec fn days_in_month(year: int, month: int) -> int {
    if month == 2 {
        if is_leap_year(year) {
            29
        } else {
            28
        }
    } else if month == 4 || month == 6 || month == 9 || month == 11 {
        30
    } else {
        31
    }
}

/// Calls `chrono::NaiveDateTime::parse_from_str(text, format)`.
///
/// Trusted: the outcome depends on the two strings alone, and is the value
/// that [`datetime_parsed`] names. An error of chrono becomes `None`; of a
/// parsed date-time the year, month, day, hour and minute are kept. A
/// date-time of chrono is a day of the proleptic Gregorian calendar with a
/// time of day, so the fields kept are those of a calendar date and time.
#[verifier::external_body]
pub(crate) fn parse_datetime(text: &str, format: &str) -> (r: Option<Timestamp>)
    ensures
        r == datetime_parsed(text@, format@),
        r matches Some(t) ==> t.is_calendar(),
{
    match chrono::NaiveDateTime::parse_from_str(text, format) {
        Ok(dt) => Some(Timestamp {
            year: dt.year(),
            month: dt.month(),
            day: dt.day(),
            hour: dt.hour(),
            minute: dt.minute(),
        }),
        Err(_) => None,
    }
}

impl Timestamp {
    /// Chronological order, strict: `self` lies before `other`.
    pub open spec fn before(self, other: Timestamp) -> bool {
        self.year < other.year || (self.year == other.year && (self.month < other.month || (
        self.month == other.month && (self.day < other.day || (self.day == other.day && (self.hour
            < other.hour || (self.hour == other.hour && self.minute < other.minute)))))))
    }

    /// Chronological order, inclusive: `self` is `other` or lies before it.
    pub open spec fn at_or_before(self, other: Timestamp) -> bool {
        self == other || self.before(other)
    }

    /// The fields name a day that the calendar has and a time of day that
    /// the 24-hour clock has.
    pub open spec fn is_calendar(self) -> bool {
        &&& 1 <= self.month <= 12
        &&& 1 <= self.day <= days_in_month(self.year as int, self.month as int)
        &&& self.hour <= 23
        &&& self.minute <= 59
    }

    /// Whether the fields name a day that the calendar has and a time of day
    /// that the 24-hour clock has.
    pub fn is_valid(&self) -> (r: bool)
        ensures
            r == self.is_calendar(),
    {
        if self.month < 1 || self.month > 12 || self.day < 1 || self.hour > 23 || self.minute > 59 {
            return false;
        }
        let leap = self.year % 4 == 0 && (self.year % 100 != 0 || self.year % 400 == 0);
        let days: u32 = if self.month == 2 {
            if leap {
                29
            } else {
                28
            }
        } else if self.month == 4 || self.month == 6 || self.month == 9 || self.month == 11 {
            30
        } else {
            31
        };
        self.day <= days
    }

    /// Reads a timestamp written as day/month/year hour:minute.
    ///
    /// Returns `None` exactly where the text is no timestamp in that layout.
    /// A timestamp that is returned is a calendar date and time.
    pub fn parse(text: &str) -> (r: Option<Timestamp>)
        ensures
            r == parsed_timestamp(text@),
            r matches Some(t) ==> t.is_calendar(),
    {
        parse_datetime(text, TIMESTAMP_FORMAT)
    }

    /// Whether `self` is `other` or lies before it.
    pub fn is_at_or_before(&self, other: &Timestamp) -> (r: bool)
        ensures
            r == self.at_or_before(*other),
    {
        if self.year != other.year {
            self.year < other.year
        } else if self.month != other.month {
            self.month < other.month
        } else if self.day != other.day {
            self.day < other.day
        } else if self.hour != other.hour {
            self.hour < other.hour
        } else {
            self.minute <= other.minute
        }
    }
}

/// The inclusive order is reflexive, transitive, antisymmetric and total.
pub proof fn timestamp_order_is_total(a: Timestamp, b: Timestamp, c: Timestamp)
    ensures
        a.at_or_before(a),
        a.at_or_before(b) && b.at_or_before(c) ==> a.at_or_before(c),
        a.at_or_before(b) && b.at_or_before(a) ==> a == b,
        a.at_or_before(b) || b.at_or_before(a),
{
}

} // verus!
