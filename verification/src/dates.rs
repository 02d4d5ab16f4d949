//! Calendar dates and the date bounds of a query.
//!
//! A query covers the days from a begin bound to an end bound, each written
//! as the first instant of a day: `2024-03-01T00:00:00+00:00`. The calendar
//! itself, reading a date from text and the current day are chrono's; which
//! date a bound stands for is decided here.

use chrono::{Datelike, Local, NaiveDate, Timelike};
use vstd::prelude::*;

verus! {

/// The first year that chrono's `NaiveDate` holds.
pub const MIN_YEAR: i32 = -262143;

/// The last year that chrono's `NaiveDate` holds.
pub const MAX_YEAR: i32 = 262142;

/// A day of the proleptic Gregorian calendar.
#[derive(Clone, Copy, Debug, PartialEq, Eq, Structural)]
pub struct CalendarDate {
    pub year: i32,
    pub month: u32,
    pub day: u32,
}

/// Whether `year` has a 29th of February.
pub open spec fn is_leap_year(year: int) -> bool {
    year % 4 == 0 && (year % 100 != 0 || year % 400 == 0)
}

/// The number of days of a month, for `month` from 1 to 12.
pub open spec fn days_in_month(year: int, month: int) -> int {
    if month == 2 {
        if is_leap_year(year) {
            29
        } else {
            28
        }
    } else if month == 4 || month == 6 || month == 9 || month == 11 {
        30
    } else {
        31
    }
}

impl CalendarDate {
    /// The date exists in the calendar, in a year that chrono holds.
    pub open spec fn is_valid(&self) -> bool {
        &&& MIN_YEAR <= self.year <= MAX_YEAR
        &&& 1 <= self.month <= 12
        &&& 1 <= self.day <= days_in_month(self.year as int, self.month as int)
    }

    /// The first day of the date's month.
    pub open spec fn month_start(&self) -> CalendarDate {
        CalendarDate { year: self.year, month: self.month, day: 1 }
    }

    /// Tells whether the date exists in the calendar, in a year that chrono
    /// holds.
    pub fn validate(&self) -> (valid: bool)
        ensures
            valid == self.is_valid(),
    {
        if self.year < MIN_YEAR || self.year > MAX_YEAR || self.month < 1 || self.month > 12 {
            return false;
        }
        // a positive year with the same place in the cycle of 400 years
        let year: i32 = self.year + 262400;
        assert(is_leap_year(year as int) == is_leap_year(self.year as int));
        let leap = year % 4 == 0 && (year % 100 != 0 || year % 400 == 0);
        let days: u32 = if self.month == 2 {
            if leap {
                29
            } else {
                28
            }
        } else if self.month == 4 || self.month == 6 || self.month == 9 || self.month == 11 {
            30
        } else {
            31
        };
        1 <= self.day && self.day <= days
    }

    /// The first day of the date's month; it exists if the date does.
    pub fn first_of_month(&self) -> (first: CalendarDate)
        ensures
            first == self.month_start(),
            self.is_valid() ==> first.is_valid(),
    {
        CalendarDate { year: self.year, month: self.month, day: 1 }
    }
}

/// The character of a decimal digit.
pub open spec fn digit_char(digit: int) -> char {
    ((48 + digit) as u8) as char
}

/// The decimal digits of a number, without leading zeros.
pub open spec fn decimal(n: nat) -> Seq<char>
    decreases n,
{
    if n < 10 {
        seq![digit_char(n as int)]
    } else {
        decimal(n / 10).push(digit_char((n % 10) as int))
    }
}

/// The decimal digits of a number, filled up with leading zeros to `width`
/// digits; a longer number is not cut.
pub open spec fn zero_padded(n: nat, width: nat) -> Seq<char> {
    let digits = decimal(n);
    if digits.len() >= width {
        digits
    } else {
        Seq::new((width - digits.len()) as nat, |i: int| '0') + digits
    }
}

/// A year as text: four digits for the years 0 to 9999, else a sign and at
/// least four digits.
pub open spec fn year_text(year: int) -> Seq<char> {
    if 0 <= year <= 9999 {
        zero_padded(year as nat, 4)
    } else if year < 0 {
        seq!['-'] + zero_padded((-year) as nat, 4)
    } else {
        seq!['+'] + zero_padded(year as nat, 4)
    }
}

/// The first instant of a day as text: year, month and day, then midnight at
/// offset zero.
pub open spec fn midnight_stamp(date: CalendarDate) -> Seq<char> {
    year_text(date.year as int) + seq!['-'] + zero_padded(date.month as nat, 2) + seq!['-']
        + zero_padded(date.day as nat, 2) + "T00:00:00+00:00"@
}

/// A reading of the local wall clock, to the second.
#[derive(Clone, Copy, Debug, PartialEq, Eq, Structural)]
pub struct LocalMoment {
    pub date: CalendarDate,
    pub hour: u32,
    pub minute: u32,
    pub second: u32,
}

impl LocalMoment {
    /// The moment is one of a day of the calendar.
    pub open spec fn is_valid(&self) -> bool {
        &&& self.date.is_valid()
        &&& self.hour < 24
        &&& self.minute < 60
        &&& self.second < 60
    }
}

/// A moment as the text that a chart is stamped with: the date, a space, and
/// the time of day.
pub open spec fn timestamp(moment: LocalMoment) -> Seq<char> {
    year_text(moment.date.year as int) + seq!['-'] + zero_padded(moment.date.month as nat, 2)
        + seq!['-'] + zero_padded(moment.date.day as nat, 2) + seq![' '] + zero_padded(
        moment.hour as nat,
        2,
    ) + seq![':'] + zero_padded(moment.minute as nat, 2) + seq![':'] + zero_padded(
        moment.second as nat,
        2,
    )
}

/// The date that chrono reads from a text in the form year-month-day, if the
/// text is one.
pub uninterp spec fn parsed_date(text: Seq<char>) -> Option<CalendarDate>;

/// Calls `chrono::NaiveDate::parse_from_str` with the format `%Y-%m-%d`.
///
/// The contract gives the outcome its name, which claims that it depends on
/// the text alone, and states that a date that chrono hands out exists in
/// the calendar: a `NaiveDate` is one of the dates that
/// `NaiveDate::from_ymd_opt` accepts.
#[verifier::external_body]
fn parse_date(text: &str) -> (date: Option<CalendarDate>)
    ensures
        date == parsed_date(text@),
        date matches Some(d) ==> d.is_valid(),
{
    match NaiveDate::parse_from_str(text, "%Y-%m-%d") {
        Ok(d) => Some(CalendarDate { year: d.year(), month: d.month(), day: d.day() }),
        Err(_) => None,
    }
}

/// Calls `chrono::Local::now` and takes the local date and time of day, cut
/// to the whole second.
///
/// The reading depends on the system's clock and time zone, so the contract
/// states only the ranges that chrono documents: the date exists in the
/// calendar, the hour is below 24, the minute and the second below 60.
#[verifier::external_body]
fn local_now() -> (moment: LocalMoment)
    ensures
        moment.is_valid(),
{
    let t = Local::now();
    LocalMoment {
        date: CalendarDate { year: t.year(), month: t.month(), day: t.day() },
        hour: t.hour(),
        minute: t.minute(),
        second: t.second(),
    }
}

/// Calls `chrono::NaiveDate::format` with `%Y-%m-%dT00:00:00+00:00`.
///
/// The contract states what chrono documents of these three fields: `%Y` is
/// the year in four digits with leading zeros, with a sign before the years
/// below 0 and above 9999; `%m` and `%d` are two digits each; all else in the
/// format is copied.
#[verifier::external_body]
fn format_midnight(date: &CalendarDate) -> (text: String)
    requires
        date.is_valid(),
    ensures
        text@ == midnight_stamp(*date),
{
    match NaiveDate::from_ymd_opt(date.year, date.month, date.day) {
        Some(d) => d.format("%Y-%m-%dT00:00:00+00:00").to_string(),
        None => String::new(),
    }
}

/// Calls `chrono::NaiveDateTime::format` with `%Y-%m-%d %H:%M:%S`.
///
/// The contract states what chrono documents of these fields: the date as
/// in a midnight stamp, then hour, minute and second in two digits each.
#[verifier::external_body]
fn format_timestamp(moment: &LocalMoment) -> (text: String)
    requires
        moment.is_valid(),
    ensures
        text@ == timestamp(*moment),
{
    match NaiveDate::from_ymd_opt(moment.date.year, moment.date.month, moment.date.day) {
        Some(d) => match d.and_hms_opt(moment.hour, moment.minute, moment.second) {
            Some(t) => t.format("%Y-%m-%d %H:%M:%S").to_string(),
            None => String::new(),
        },
        None => String::new(),
    }
}

/// The optional dates that bound a query, each as the text that a caller
/// gave: year-month-day.
pub struct DateRange {
    pub begin_at: Option<String>,
    pub end_at: Option<String>,
}

/// The view of an optional text.
pub open spec fn text_of(text: Option<String>) -> Option<Seq<char>> {
    match text {
        Some(s) => Some(s@),
        None => None,
    }
}

/// The date that a bound stands for, given what chrono read from it: that
/// date where one was given and read, else the first day of today's month.
pub open spec fn resolved_date(parsed: Option<CalendarDate>, today: CalendarDate)
    -> CalendarDate {
    match parsed {
        Some(date) => date,
        None => today.month_start(),
    }
}

/// What was read from an optional text: nothing where there is no text.
pub open spec fn parsed_bound(given: Option<Seq<char>>) -> Option<CalendarDate> {
    match given {
        Some(text) => parsed_date(text),
        None => None,
    }
}

/// The stamp of a bound on the day `today`: the given date at midnight, or,
/// where none was given or the text is no date, the first of today's month.
pub open spec fn date_string_on(given: Option<Seq<char>>, today: CalendarDate) -> Seq<char> {
    midnight_stamp(resolved_date(parsed_bound(given), today))
}

/// The stamp of a query's begin bound on the day `today`.
pub open spec fn begin_stamp_on(range: DateRange, today: CalendarDate) -> Seq<char> {
    date_string_on(text_of(range.begin_at), today)
}

/// The stamp of a query's end bound on the day `today`: today itself where
/// no end was given.
pub open spec fn end_stamp_on(range: DateRange, today: CalendarDate) -> Seq<char> {
    match range.end_at {
        Some(text) => date_string_on(Some(text@), today),
        None => midnight_stamp(today),
    }
}

/// Picks the date of a bound from what was read of it.
pub fn resolve_date(parsed: Option<CalendarDate>, today: &CalendarDate) -> (date: CalendarDate)
    ensures
        date == resolved_date(parsed, *today),
{
    match parsed {
        Some(date) => date,
        None => today.first_of_month(),
    }
}

/// Writes the stamp of an optional bound on the day `today`.
///
/// A text that is no date is not an error: the bound falls back to the first
/// day of today's month, as a bound that was not given does.
pub fn date_string_for(date: &Option<String>, today: &CalendarDate) -> (stamp: String)
    requires
        today.is_valid(),
    ensures
        stamp@ == date_string_on(text_of(*date), *today),
{
    let parsed = match date {
        Some(text) => parse_date(text.as_str()),
        None => None,
    };
    let resolved = resolve_date(parsed, today);
    format_midnight(&resolved)
}

/// Writes the stamp of today's midnight.
pub fn today_stamp(today: &CalendarDate) -> (stamp: String)
    requires
        today.is_valid(),
    ensures
        stamp@ == midnight_stamp(*today),
{
    format_midnight(today)
}

/// Reads the local wall clock.
pub fn now_local() -> (moment: LocalMoment)
    ensures
        moment.is_valid(),
{
    local_now()
}

/// Reads the current local date.
pub fn today() -> (today: CalendarDate)
    ensures
        today.is_valid(),
{
    local_now().date
}

/// Writes the text that a chart updated at `moment` is stamped with.
pub fn timestamp_for(moment: &LocalMoment) -> (stamp: String)
    requires
        moment.is_valid(),
    ensures
        stamp@ == timestamp(*moment),
{
    format_timestamp(moment)
}

} // verus!
