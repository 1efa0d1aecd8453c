//! Calendar dates without a time of day, and the reading of a due date from text.

use chrono::Datelike;
use chrono::NaiveDate;
use vstd::prelude::*;
use vstd::string::StringExecFns;

verus! {

/// The earliest year a date can have.
pub const MIN_YEAR: i32 = -262143;

/// The latest year a date can have.
pub const MAX_YEAR: i32 = 262142;

/// A day of the proleptic Gregorian calendar, by year, month and day of the month.
#[derive(Clone, Copy, Debug, PartialEq, Eq, PartialOrd, Ord, Hash, Structural)]
pub struct Date {
    pub year: i32,
    pub month: u32,
    pub day: u32,
}

/// Years divisible by 4 are leap years, but of the centuries only those divisible by 400.
pub open spec fn is_leap_year(year: int) -> bool {
    year % 4 == 0 && (year % 100 != 0 || year % 400 == 0)
}

/// The number of days of a month, 0 for a month that does not exist.
pub open spec fn days_in_month(year: int, month: int) -> int {
    if month == 4 || month == 6 || month == 9 || month == 11 {
        30
    } else if month == 2 {
        if is_leap_year(year) {
            29
        } else {
            28
        }
    } else if 1 <= month <= 12 {
        31
    } else {
        0
    }
}

/// Whether the calendar has the day `day` of month `month` of `year`, in the years
/// that a date can have.
pub open spec fn is_date(year: int, month: int, day: int) -> bool {
    &&& MIN_YEAR <= year <= MAX_YEAR
    &&& 1 <= month <= 12
    &&& 1 <= day <= days_in_month(year, month)
}

/// The date with these numbers, if the calendar has it.
pub open spec fn date_of(year: int, month: int, day: int) -> Option<Date> {
    if is_date(year, month, day) {
        Some(Date { year: year as i32, month: month as u32, day: day as u32 })
    } else {
        None
    }
}

/// What `<NaiveDate as FromStr>::from_str` makes of `input`: the year, month and
/// day of the date it reads, or `None` where it reports an error.
pub uninterp spec fn date_from_str(input: Seq<char>) -> Option<(i32, u32, u32)>;

/// What `NaiveDate::parse_from_str` makes of `input` under the format `format`:
/// the year, month and day of the date it reads, or `None` where it reports an error.
pub uninterp spec fn date_parsed_with(input: Seq<char>, format: Seq<char>) -> Option<
    (i32, u32, u32),
>;

/// The format that a due date is asked for in, as chrono writes formats.
pub const DUE_DATE_FORMAT: &'static str = "%Y-%m-%d";

/// What the user is told when a due date is not in that format.
pub const INVALID_DATE_MESSAGE: &'static str = "Invalid date format. Use YYYY-MM-DD";

/// The due date that an input stands for: none for the empty input and for one that
/// `<NaiveDate as FromStr>::from_str` does not read as a date.
pub open spec fn due_date_of(input: Seq<char>) -> Option<Date> {
    if input.len() == 0 {
        None
    } else {
        match date_from_str(input) {
            Some((year, month, day)) => date_of(year as int, month as int, day as int),
            None => None,
        }
    }
}

/// Whether an input is accepted as a due date: the empty input is, and so is one
/// that `NaiveDate::parse_from_str` reads under the due-date format.
pub open spec fn is_due_date_input(input: Seq<char>) -> bool {
    input.len() == 0 || date_parsed_with(input, DUE_DATE_FORMAT@) is Some
}

impl Date {
    /// The date is one that the calendar has.
    pub open spec fn is_valid(self) -> bool {
        is_date(self.year as int, self.month as int, self.day as int)
    }

    /// `self` is an earlier day than `other`.
    pub open spec fn is_before(self, other: Date) -> bool {
        ||| self.year < other.year
        ||| self.year == other.year && self.month < other.month
        ||| self.year == other.year && self.month == other.month && self.day < other.day
    }

    /// The date with these numbers, or `None` where the calendar has no such day.
    pub fn from_ymd(year: i32, month: u32, day: u32) -> (date: Option<Date>)
        ensures
            date == date_of(year as int, month as int, day as int),
            date is Some ==> date->0.is_valid(),
    {
        if year < MIN_YEAR || year > MAX_YEAR || month < 1 || month > 12 || day < 1 {
            return None;
        }
        let leap = year % 4 == 0 && (year % 100 != 0 || year % 400 == 0);
        let days: u32 = if month == 4 || month == 6 || month == 9 || month == 11 {
            30
        } else if month == 2 {
            if leap {
                29
            } else {
                28
            }
        } else {
            31
        };
        if day <= days {
            Some(Date { year, month, day })
        } else {
            None
        }
    }

    /// Whether `self` is an earlier day than `other`.
    pub fn before(&self, other: &Date) -> (earlier: bool)
        ensures
            earlier == self.is_before(*other),
    {
        self.year < other.year || (self.year == other.year && (self.month < other.month || (
            self.month == other.month && self.day < other.day)))
    }
}

/// Taken on trust of chrono's `<NaiveDate as FromStr>::from_str`, reached through
/// `str::parse`: the year, month and day of the date it returns, or `None` for its
/// error, are what `date_from_str` names for the input. Which inputs it reads as
/// a date is not said here.
#[verifier::external_body]
fn naive_date_from_str(input: &str) -> (read: Option<(i32, u32, u32)>)
    ensures
        read == date_from_str(input@),
{
    match input.parse::<NaiveDate>() {
        Ok(date) => Some((date.year(), date.month(), date.day())),
        Err(_) => None,
    }
}

/// Taken on trust of chrono's `NaiveDate::parse_from_str`: the year, month and day of
/// the date it returns, or `None` for its error, are what `date_parsed_with` names
/// for the input and the format. Which inputs it reads as a date is not said here.
#[verifier::external_body]
fn naive_date_parse_from_str(input: &str, format: &str) -> (read: Option<(i32, u32, u32)>)
    ensures
        read == date_parsed_with(input@, format@),
{
    match NaiveDate::parse_from_str(input, format) {
        Ok(date) => Some((date.year(), date.month(), date.day())),
        Err(_) => None,
    }
}

/// Reads a due date. The empty input and any input that is not read as a date
/// give no due date.
pub fn parse_due_date(input: &str) -> (due: Option<Date>)
    ensures
        due == due_date_of(input@),
        due is Some ==> due->0.is_valid(),
{
    if input.is_empty() {
        return None;
    }
    match naive_date_from_str(input) {
        Some((year, month, day)) => Date::from_ymd(year, month, day),
        None => None,
    }
}

/// Checks an input for a due date before it is taken: the empty input passes, any
/// other must be a date in the form `YYYY-MM-DD`.
pub fn validate_due_date(input: &str) -> (checked: Result<(), String>)
    ensures
        checked is Ok <==> is_due_date_input(input@),
        checked is Err ==> checked->Err_0@ == INVALID_DATE_MESSAGE@,
{
    if input.is_empty() {
        return Ok(());
    }
    match naive_date_parse_from_str(input, DUE_DATE_FORMAT) {
        Some(_) => Ok(()),
        None => Err(String::from_str(INVALID_DATE_MESSAGE)),
    }
}

} // verus!
