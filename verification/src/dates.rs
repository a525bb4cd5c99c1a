//! Post dates, read and written with `chrono`.
//!
//! A date is carried between the two `chrono` calls as its year, month and day.

use vstd::prelude::*;
use chrono::Datelike;
use std::fmt::Write;
use crate::text::{chars_of, push_all, string_of, text_result};

verus! {

/// The year, month and day that `chrono::NaiveDate::parse_from_str` reads from `text`
/// with the format `fmt`, or `None` where it reports an error.
pub uninterp spec fn chrono_parsed_date(text: Seq<char>, fmt: Seq<char>) -> Option<(i32, u32, u32)>;

/// The text that `chrono` writes for the date with this year, month and day in the
/// format `fmt`, or `None` where there is no such date or the format cannot be written.
pub uninterp spec fn chrono_formatted_date(year: i32, month: u32, day: u32, fmt: Seq<char>) -> Option<
    Seq<char>,
>;

/// A leap year of the proleptic Gregorian calendar.
pub open spec fn is_leap_year(year: int) -> bool {
    year % 4 == 0 && (year % 100 != 0 || year % 400 == 0)
}

/// The number of days of a month (1 to 12) of a year.
pub open spec fn days_in_month(year: int, month: int) -> int {
    if month == 2 {
        if is_leap_year(year) {
            29
        } else {
            28
        }
    } else if month == 4 || month == 6 || month == 9 || month == 11 {
        30
    } else {
        31
    }
}

/// A date that `chrono::NaiveDate` can hold: a day of a month of a year of the proleptic
/// Gregorian calendar, the year within `NaiveDate`'s range (`-262143..=262142`).
pub open spec fn is_calendar_date(year: i32, month: u32, day: u32) -> bool {
    &&& -262143 <= year <= 262142
    &&& 1 <= month <= 12
    &&& 1 <= day <= days_in_month(year as int, month as int)
}

/// The decimal digit for `n` (`0 <= n < 10`).
pub open spec fn decimal_digit(n: int) -> char {
    seq!['0', '1', '2', '3', '4', '5', '6', '7', '8', '9'][n]
}

/// A number from 0 to 99 as two decimal digits.
pub open spec fn two_digits(n: int) -> Seq<char> {
    seq![decimal_digit(n / 10), decimal_digit(n % 10)]
}

/// A number from 0 to 9999 as four decimal digits.
pub open spec fn four_digits(n: int) -> Seq<char> {
    seq![
        decimal_digit(n / 1000),
        decimal_digit(n / 100 % 10),
        decimal_digit(n / 10 % 10),
        decimal_digit(n % 10),
    ]
}

/// A date of a year from 0 to 9999 written as `%Y-%m-%d`: four digits of year, two of
/// month and two of day, each with leading zeros, joined by `-`.
pub open spec fn ymd_text(year: int, month: int, day: int) -> Seq<char> {
    four_digits(year) + seq!['-'] + two_digits(month) + seq!['-'] + two_digits(day)
}

/// The day of the week of a date of the proleptic Gregorian calendar, from 0 for Sunday to
/// 6 for Saturday (Sakamoto's rule).
pub open spec fn weekday_of(year: int, month: int, day: int) -> int {
    let y = if month < 3 {
        year - 1
    } else {
        year
    };
    let offset = seq![0int, 3, 2, 5, 0, 3, 5, 1, 4, 6, 2, 4][month - 1];
    (y + y / 4 - y / 100 + y / 400 + offset + day) % 7
}

/// The English abbreviation of a day of the week, from 0 for Sunday.
pub open spec fn short_weekday_name(weekday: int) -> Seq<char> {
    seq!["Sun"@, "Mon"@, "Tue"@, "Wed"@, "Thu"@, "Fri"@, "Sat"@][weekday]
}

/// The English abbreviation of a month, from 1 for January.
pub open spec fn short_month_name(month: int) -> Seq<char> {
    seq![
        "Jan"@,
        "Feb"@,
        "Mar"@,
        "Apr"@,
        "May"@,
        "Jun"@,
        "Jul"@,
        "Aug"@,
        "Sep"@,
        "Oct"@,
        "Nov"@,
        "Dec"@,
    ][month - 1]
}

/// A date of a year from 0 to 9999 written as `%a, %d %b %Y 12:00:00 AM -0000`, the
/// format of the RSS feed: the abbreviated day of the week, `, `, two digits of day, the
/// abbreviated month, four digits of year, then ` 12:00:00 AM -0000`.
pub open spec fn rss_text(year: int, month: int, day: int) -> Seq<char> {
    short_weekday_name(weekday_of(year, month, day)) + ", "@ + two_digits(day) + " "@
        + short_month_name(month) + " "@ + four_digits(year) + " 12:00:00 AM -0000"@
}

/// Whether a year is written by `%Y` as exactly four digits.
pub open spec fn is_four_digit_year(year: i32) -> bool {
    0 <= year <= 9999
}

/// Reads a date with `chrono::NaiveDate::parse_from_str` and gives its year, month and day
/// (`Datelike::year`, `month`, `day`).  The contract ties the result to the text and the
/// format through `chrono_parsed_date`, and says that what is read is a date that
/// `NaiveDate` can hold; which texts `chrono` accepts is not stated.
#[verifier::external_body]
fn parse_date(text: &str, fmt: &str) -> (r: Option<(i32, u32, u32)>)
    ensures
        r == chrono_parsed_date(text@, fmt@),
        r matches Some((y, m, d)) ==> is_calendar_date(y, m, d),
{
    match chrono::NaiveDate::parse_from_str(text, fmt) {
        Ok(date) => Some((date.year(), date.month(), date.day())),
        Err(_) => None,
    }
}

/// Writes a date with `chrono`: `NaiveDate::from_ymd_opt`, then the `Display` of
/// `NaiveDate::format` with `fmt`.  The contract ties the result to its arguments through
/// `chrono_formatted_date`.  It says that there is no result for what is not a date
/// `NaiveDate` can hold; that every date it can hold is written in the two formats of post
/// dates and of the RSS feed; and what these formats write for a year from 0 to 9999
/// (with chrono's English names of days and months).  What other formats write, and what
/// is written for other years, is not stated.
#[verifier::external_body]
fn format_date(year: i32, month: u32, day: u32, fmt: &str) -> (r: Option<String>)
    ensures
        match r {
            Some(s) => chrono_formatted_date(year, month, day, fmt@) == Some(s@),
            None => chrono_formatted_date(year, month, day, fmt@) is None,
        },
        !is_calendar_date(year, month, day) ==> r is None,
        is_calendar_date(year, month, day) && (fmt@ == "%Y-%m-%d"@ || fmt@
            == "%a, %d %b %Y 12:00:00 AM -0000"@) ==> r is Some,
        is_calendar_date(year, month, day) && is_four_digit_year(year) && fmt@ == "%Y-%m-%d"@
            ==> r is Some && r.unwrap()@ == ymd_text(year as int, month as int, day as int),
        is_calendar_date(year, month, day) && is_four_digit_year(year) && fmt@
            == "%a, %d %b %Y 12:00:00 AM -0000"@ ==> r is Some && r.unwrap()@ == rss_text(
            year as int,
            month as int,
            day as int,
        ),
{
    match chrono::NaiveDate::from_ymd_opt(year, month, day) {
        Some(date) => {
            let mut out = String::new();
            match write!(out, "{}", date.format(fmt)) {
                Ok(()) => Some(out),
                Err(_) => None,
            }
        },
        None => None,
    }
}

/// Why a post date could not be used.
#[derive(Clone, Copy, Debug, PartialEq, Eq, Structural)]
pub enum DateError {
    /// The date is not a `%Y-%m-%d` date.
    Invalid,
    /// The date could not be written in the feed's format.
    Unwritable,
}

/// The format of post dates.
pub open spec fn post_date_format() -> Seq<char> {
    "%Y-%m-%d"@
}

/// The format of dates in the RSS feed.
pub open spec fn rss_date_format() -> Seq<char> {
    "%a, %d %b %Y 12:00:00 AM -0000"@
}

/// A post date rewritten in the format `fmt`.
pub open spec fn redated(date: Seq<char>, fmt: Seq<char>) -> Result<Seq<char>, DateError> {
    written_date(chrono_parsed_date(date, post_date_format()), fmt)
}

/// The date of a post in the RSS feed.
pub open spec fn rss_date_of(date: Seq<char>) -> Result<Seq<char>, DateError> {
    redated(date, rss_date_format())
}

/// The date of a post in the Atom feed: the date written as `%Y-%m-%d` (as `NaiveDate`
/// displays itself), then `T00:00:00Z`.
pub open spec fn atom_date_of(date: Seq<char>) -> Result<Seq<char>, DateError> {
    match redated(date, post_date_format()) {
        Ok(text) => Ok(text + "T00:00:00Z"@),
        Err(e) => Err(e),
    }
}

/// Whether a post date is a `%Y-%m-%d` date.
pub fn is_post_date(date: &str) -> (ok: bool)
    ensures
        ok == chrono_parsed_date(date@, post_date_format()) is Some,
        chrono_parsed_date(date@, post_date_format()) matches Some((y, m, d)) ==> ok
            && is_calendar_date(y, m, d),
{
    parse_date(date, "%Y-%m-%d").is_some()
}

/// A date that `chrono` read (or failed to read) from a post, written in the format `fmt`.
pub open spec fn written_date(parsed: Option<(i32, u32, u32)>, fmt: Seq<char>) -> Result<Seq<char>, DateError> {
    match parsed {
        None => Err(DateError::Invalid),
        Some((y, m, d)) => match chrono_formatted_date(y, m, d, fmt) {
            Some(text) => Ok(text),
            None => Err(DateError::Unwritable),
        },
    }
}

/// Writes a date that `chrono` read from a post in the format `fmt`; a date that could not
/// be read is an error.
pub fn write_date(parsed: Option<(i32, u32, u32)>, fmt: &str) -> (r: Result<String, DateError>)
    ensures
        text_result(r) == written_date(parsed, fmt@),
        parsed matches Some((y, m, d)) ==> (!is_calendar_date(y, m, d) ==> r == Err::<
            String,
            DateError,
        >(DateError::Unwritable)),
        parsed matches Some((y, m, d)) ==> (is_calendar_date(y, m, d) && (fmt@
            == post_date_format() || fmt@ == rss_date_format()) ==> r is Ok),
        parsed matches Some((y, m, d)) ==> (is_calendar_date(y, m, d) && is_four_digit_year(y)
            && fmt@ == "%Y-%m-%d"@ ==> text_result(r) == Ok::<Seq<char>, DateError>(
            ymd_text(y as int, m as int, d as int),
        )),
        parsed matches Some((y, m, d)) ==> (is_calendar_date(y, m, d) && is_four_digit_year(y)
            && fmt@ == rss_date_format() ==> text_result(r) == Ok::<Seq<char>, DateError>(
            rss_text(y as int, m as int, d as int),
        )),
{
    match parsed {
        None => Err(DateError::Invalid),
        Some((y, m, d)) => match format_date(y, m, d, fmt) {
            Some(text) => Ok(text),
            None => Err(DateError::Unwritable),
        },
    }
}

/// A post date rewritten in the format `fmt`.
fn redate(date: &str, fmt: &str) -> (r: Result<String, DateError>)
    ensures
        text_result(r) == redated(date@, fmt@),
        chrono_parsed_date(date@, post_date_format()) is Some && (fmt@ == post_date_format()
            || fmt@ == rss_date_format()) ==> r is Ok,
        chrono_parsed_date(date@, post_date_format()) matches Some((y, m, d)) ==> (
        is_four_digit_year(y) && fmt@ == "%Y-%m-%d"@ ==> text_result(r) == Ok::<
            Seq<char>,
            DateError,
        >(ymd_text(y as int, m as int, d as int))),
        chrono_parsed_date(date@, post_date_format()) matches Some((y, m, d)) ==> (
        is_four_digit_year(y) && fmt@ == rss_date_format() ==> text_result(r) == Ok::<
            Seq<char>,
            DateError,
        >(rss_text(y as int, m as int, d as int))),
{
    write_date(parse_date(date, "%Y-%m-%d"), fmt)
}

/// The Atom form of a post date written as `%Y-%m-%d`: the date followed by `T00:00:00Z`.
pub fn at_midnight(date: &str) -> (text: String)
    ensures
        text@ == date@ + "T00:00:00Z"@,
{
    let mut out = chars_of(date);
    push_all(&mut out, chars_of("T00:00:00Z").as_slice());
    string_of(&out)
}

/// The date of a post as the RSS feed writes it.
pub fn rss_date(date: &str) -> (r: Result<String, DateError>)
    ensures
        text_result(r) == rss_date_of(date@),
        r is Ok <==> chrono_parsed_date(date@, post_date_format()) is Some,
        chrono_parsed_date(date@, post_date_format()) matches Some((y, m, d)) ==> (
        is_four_digit_year(y) ==> text_result(r) == Ok::<Seq<char>, DateError>(
            rss_text(y as int, m as int, d as int),
        )),
{
    redate(date, "%a, %d %b %Y 12:00:00 AM -0000")
}

/// The date of a post as the Atom feed writes it.
pub fn atom_date(date: &str) -> (r: Result<String, DateError>)
    ensures
        text_result(r) == atom_date_of(date@),
        r is Ok <==> chrono_parsed_date(date@, post_date_format()) is Some,
        chrono_parsed_date(date@, post_date_format()) matches Some((y, m, d)) ==> (
        is_four_digit_year(y) ==> text_result(r) == Ok::<Seq<char>, DateError>(
            ymd_text(y as int, m as int, d as int) + "T00:00:00Z"@,
        )),
{
    match redate(date, "%Y-%m-%d") {
        Ok(text) => Ok(at_midnight(text.as_str())),
        Err(e) => Err(e),
    }
}

} // verus!
