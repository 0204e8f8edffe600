//! Dates for the flight booker and the calendar dialog.
use vstd::prelude::*;
use vstd::string::StringExecFns;
use chrono::{Datelike, NaiveDate};

verus! {

/// A calendar date: year, month (1 to 12) and day of the month.
pub type Ymd = (i32, u32, u32);

/// The earliest and latest years a `chrono::NaiveDate` can hold.
pub open spec fn min_year() -> int {
    -262143
}

pub open spec fn max_year() -> int {
    262142
}

/// Leap years of the proleptic Gregorian calendar.
pub open spec fn gregorian_leap(y: int) -> bool {
    y % 4 == 0 && (y % 100 != 0 || y % 400 == 0)
}

/// The number of days of a month in the proleptic Gregorian calendar.
pub open spec fn gregorian_days(y: int, m: int) -> int {
    if m == 2 {
        if gregorian_leap(y) { 29 } else { 28 }
    } else if m == 4 || m == 6 || m == 9 || m == 11 {
        30
    } else {
        31
    }
}

/// A date that `chrono::NaiveDate` can represent.
pub open spec fn valid_date(y: int, m: int, d: int) -> bool {
    &&& min_year() <= y <= max_year()
    &&& 1 <= m <= 12
    &&& 1 <= d <= gregorian_days(y, m)
}

/// Trusted: `chrono::NaiveDate::from_ymd_opt`, the date read back by
/// `year`, `month` and `day`. The contract claims what chrono documents:
/// a date exactly when the day exists in the proleptic Gregorian calendar
/// and the year is in range, and then the date given.
#[verifier::external_body]
fn date_from_ymd(y: i32, m: u32, d: u32) -> (r: Option<Ymd>)
    ensures
        r is Some <==> valid_date(y as int, m as int, d as int),
        r is Some ==> r == Some((y, m, d)),
{
    NaiveDate::from_ymd_opt(y, m, d).map(|dt| (dt.year(), dt.month(), dt.day()))
}

/// The date `chrono::NaiveDate::parse_from_str` reads from a text with the
/// format `%Y-%m-%d`, if it reads one.
pub uninterp spec fn parsed_iso_date(s: Seq<char>) -> Option<Ymd>;

/// Trusted: `chrono::NaiveDate::parse_from_str(s, "%Y-%m-%d")`, the date
/// read back by `year`, `month` and `day`. The contract names the result
/// `parsed_iso_date`; it depends on the text alone.
#[verifier::external_body]
fn parse_iso_date(s: &str) -> (r: Option<Ymd>)
    ensures
        r == parsed_iso_date(s@),
{
    NaiveDate::parse_from_str(s, "%Y-%m-%d").ok().map(|dt| (dt.year(), dt.month(), dt.day()))
}

/// Chronological order of dates.
pub open spec fn date_le(a: Ymd, b: Ymd) -> bool {
    a.0 < b.0 || (a.0 == b.0 && (a.1 < b.1 || (a.1 == b.1 && a.2 <= b.2)))
}

fn date_le_exec(a: Ymd, b: Ymd) -> (r: bool)
    ensures
        r == date_le(a, b),
{
    a.0 < b.0 || (a.0 == b.0 && (a.1 < b.1 || (a.1 == b.1 && a.2 <= b.2)))
}

// ---------------------------------------------------------------------
// Flight booker

/// The state of the booking form after an edit: which fields hold a date
/// (`None` for a field that is not read), whether the return field is
/// enabled, and whether "Book" is enabled.
#[derive(Debug, Clone, Copy, PartialEq, Eq, Structural)]
pub struct BookingForm {
    pub start_ok: Option<bool>,
    pub back_ok: Option<bool>,
    pub back_enabled: bool,
    pub book_enabled: bool,
}

/// Checks the booking form: a one-way flight (choice 0) needs a valid
/// start date; a return flight needs two valid dates, the return not
/// before the start.
pub fn check_booking(return_flight: bool, start: &str, back: &str) -> (f: BookingForm)
    ensures
        !return_flight ==> f == (BookingForm {
            start_ok: Some(parsed_iso_date(start@) is Some),
            back_ok: None,
            back_enabled: false,
            book_enabled: parsed_iso_date(start@) is Some,
        }),
        return_flight ==> f == (BookingForm {
            start_ok: Some(parsed_iso_date(start@) is Some),
            back_ok: Some(parsed_iso_date(back@) is Some),
            back_enabled: true,
            book_enabled: parsed_iso_date(start@) is Some && parsed_iso_date(back@) is Some
                && date_le(parsed_iso_date(start@)->0, parsed_iso_date(back@)->0),
        }),
{
    if !return_flight {
        let s = parse_iso_date(start);
        BookingForm {
            start_ok: Some(s.is_some()),
            back_ok: None,
            back_enabled: false,
            book_enabled: s.is_some(),
        }
    } else {
        let s = parse_iso_date(start);
        let b = parse_iso_date(back);
        let ok = match (s, b) {
            (Some(x), Some(y)) => date_le_exec(x, y),
            _ => false,
        };
        BookingForm {
            start_ok: Some(s.is_some()),
            back_ok: Some(b.is_some()),
            back_enabled: true,
            book_enabled: ok,
        }
    }
}

/// The confirmation shown by "Book".
pub open spec fn booking_message(return_flight: bool, start: Seq<char>, back: Seq<char>) -> Seq<char> {
    if !return_flight {
        "You have booked a one-way flight for "@ + start + "."@
    } else {
        "You have booked a return flight from "@ + start + " to "@ + back
    }
}

pub fn book_message(return_flight: bool, start: &str, back: &str) -> (m: String)
    ensures
        m@ == booking_message(return_flight, start@, back@),
{
    let mut m = String::new();
    if !return_flight {
        m.append("You have booked a one-way flight for ");
        m.append(start);
        m.append(".");
    } else {
        m.append("You have booked a return flight from ");
        m.append(start);
        m.append(" to ");
        m.append(back);
    }
    m
}

// ---------------------------------------------------------------------
// Calendar

/// The days the calendar shows for a month (1 to 12) of a year: every
/// fourth year has a 29th of February.
pub open spec fn month_length(month: int, year: int) -> int {
    if month == 2 {
        if year % 4 == 0 { 29 } else { 28 }
    } else if month == 4 || month == 6 || month == 9 || month == 11 {
        30
    } else {
        31
    }
}

/// The number of days the calendar shows for a month.
pub fn max_days(month: i32, year: i32) -> (n: i32)
    requires
        1 <= month <= 12,
    ensures
        n == month_length(month as int, year as int),
{
    match month {
        1 => 31,
        2 => {
            if year % 4 == 0 {
                29
            } else {
                28
            }
        },
        3 => 31,
        4 => 30,
        5 => 31,
        6 => 30,
        7 => 31,
        8 => 31,
        9 => 30,
        10 => 31,
        11 => 30,
        _ => 31,
    }
}

/// The day shown in the cell at `row`, `col` of the month table, if the
/// month has that many days.
pub fn cell_day(row: i32, col: i32, month: i32, year: i32) -> (d: Option<i32>)
    requires
        i32::MIN <= row * 7 <= i32::MAX,
        i32::MIN <= row * 7 + col <= i32::MAX,
        i32::MIN <= row * 7 + col + 1 <= i32::MAX,
        1 <= month <= 12,
    ensures
        d == (if row * 7 + col + 1 <= month_length(month as int, year as int) {
            Some((row * 7 + col + 1) as i32)
        } else {
            None::<i32>
        }),
{
    let day = row * 7 + col + 1;
    if day < max_days(month, year) + 1 {
        Some(day)
    } else {
        None
    }
}

/// The date picked in the calendar: the selected cell `(row, col)` (`-1`
/// when nothing is selected) in the chosen month and year, counted from
/// January 1900.
pub fn picked_date(row: i32, col: i32, year_index: i32, month_index: i32) -> (r: Option<Ymd>)
    requires
        row == -1 || col == -1 || (i32::MIN <= row * 7 <= i32::MAX && i32::MIN <= row * 7 + col
            <= i32::MAX && i32::MIN <= row * 7 + col + 1 <= i32::MAX && year_index + 1900 <= i32::MAX
            && (month_index as u32) + 1 <= u32::MAX),
    ensures
        (row == -1 || col == -1) ==> r is None,
        row != -1 && col != -1 ==> {
            let y = (year_index + 1900) as i32;
            let m = ((month_index as u32) + 1) as u32;
            let d = (row * 7 + col + 1) as u32;
            &&& r is Some <==> valid_date(y as int, m as int, d as int)
            &&& r is Some ==> r == Some((y, m, d))
        },
{
    if row == -1 || col == -1 {
        None
    } else {
        let day = row * 7 + col + 1;
        date_from_ymd(year_index + 1900, month_index as u32 + 1, day as u32)
    }
}

/// Dates are ordered as the calendar runs: an earlier year comes first
/// whatever the month and day, then within a year an earlier month
/// whatever the day, then within a month an earlier day. The order is
/// total, and two dates each before the other are the same date.
pub proof fn law_dates_in_calendar_order(a: Ymd, b: Ymd, c: Ymd)
    ensures
        a.0 < b.0 ==> date_le(a, b) && !date_le(b, a),
        a.0 == b.0 && a.1 < b.1 ==> date_le(a, b) && !date_le(b, a),
        a.0 == b.0 && a.1 == b.1 ==> (date_le(a, b) <==> a.2 <= b.2),
        date_le(a, a),
        date_le(a, b) || date_le(b, a),
        date_le(a, b) && date_le(b, a) ==> a == b,
        date_le(a, b) && date_le(b, c) ==> date_le(a, c),
{
}

/// The months of the calendar: January, March, May, July, August,
/// October and December have 31 days, the other months but February 30
/// (the knuckle rule: up to July the odd months are long, from August the
/// even ones), as in the Gregorian calendar; February has 28 or 29, so a
/// year has 365 or 366 days.
pub proof fn law_month_lengths(y: int, m: int)
    ensures
        1 <= m <= 12 && m != 2 ==> month_length(m, y) == (if (m <= 7) == (m % 2 == 1) {
            31int
        } else {
            30int
        }),
        1 <= m <= 12 && m != 2 ==> month_length(m, y) == gregorian_days(y, m),
        month_length(2, y) == 28 || month_length(2, y) == 29,
        month_length(1, y) + month_length(2, y) + month_length(3, y) + month_length(4, y)
            + month_length(5, y) + month_length(6, y) + month_length(7, y) + month_length(8, y)
            + month_length(9, y) + month_length(10, y) + month_length(11, y) + month_length(12, y)
            == 337 + month_length(2, y),
{
}

} // verus!
