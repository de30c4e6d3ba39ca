//! Calendar dates: which ones exist, their weekday, month names, and numbers as text.
use chrono::Datelike;
use vstd::prelude::*;
use vstd::string::StringExecFns;

verus! {

/// The earliest year that a calendar date can have here.
pub const MIN_YEAR: i32 = -262143;

/// The latest year that a calendar date can have here.
pub const MAX_YEAR: i32 = 262142;

/// A day of the (proleptic Gregorian) calendar.
#[derive(Clone, Copy, Debug, PartialEq, Eq)]
pub struct CalDate {
    pub year: i32,
    pub month: u32,
    pub day: u32,
}

pub open spec fn is_leap_year(year: int) -> bool {
    year % 4 == 0 && (year % 100 != 0 || year % 400 == 0)
}

/// The number of days of a month, for a month in 1..=12.
pub open spec fn days_in_month(year: int, month: int) -> int {
    if month == 2 {
        if is_leap_year(year) { 29 } else { 28 }
    } else if month == 4 || month == 6 || month == 9 || month == 11 {
        30
    } else {
        31
    }
}

/// Whether `(year, month, day)` is a day of the calendar in the supported years.
pub open spec fn is_valid_date(year: int, month: int, day: int) -> bool {
    MIN_YEAR <= year <= MAX_YEAR && 1 <= month <= 12 && 1 <= day <= days_in_month(year, month)
}

/// The day of the week of a valid date, Sunday = 0 up to Saturday = 6.
pub uninterp spec fn weekday_number(year: int, month: int, day: int) -> int;

/// Relies on chrono's `NaiveDate::from_ymd_opt`, which gives `None` exactly for a
/// month or day that does not exist in that year, or a year out of its range.
#[verifier::external_body]
pub(crate) fn date_exists(year: i32, month: u32, day: u32) -> (r: bool)
    ensures
        r == is_valid_date(year as int, month as int, day as int),
{
    chrono::NaiveDate::from_ymd_opt(year, month, day).is_some()
}

/// Relies on chrono's `NaiveDate::weekday` and `Weekday::num_days_from_sunday`:
/// the day of the week of a date, counted from Sunday = 0.
#[verifier::external_body]
pub(crate) fn weekday_from_sunday(year: i32, month: u32, day: u32) -> (r: u32)
    requires
        is_valid_date(year as int, month as int, day as int),
    ensures
        r as int == weekday_number(year as int, month as int, day as int),
        r < 7,
{
    chrono::NaiveDate::from_ymd_opt(year, month, day).unwrap().weekday().num_days_from_sunday()
}

/// The names of the months.
#[derive(Clone, Copy, Debug, PartialEq, Eq)]
pub enum MonthNames {
    January,
    February,
    March,
    April,
    May,
    June,
    July,
    August,
    September,
    October,
    November,
    December,
}

/// The English name of the month with 0-based index `i` (January = 0).
pub open spec fn month_name(i: int) -> Seq<char> {
    if i == 0 { "January"@ }
    else if i == 1 { "February"@ }
    else if i == 2 { "March"@ }
    else if i == 3 { "April"@ }
    else if i == 4 { "May"@ }
    else if i == 5 { "June"@ }
    else if i == 6 { "July"@ }
    else if i == 7 { "August"@ }
    else if i == 8 { "September"@ }
    else if i == 9 { "October"@ }
    else if i == 10 { "November"@ }
    else { "December"@ }
}

impl MonthNames {
    /// The 0-based index of the month (January = 0).
    pub open spec fn index(self) -> int {
        match self {
            MonthNames::January => 0,
            MonthNames::February => 1,
            MonthNames::March => 2,
            MonthNames::April => 3,
            MonthNames::May => 4,
            MonthNames::June => 5,
            MonthNames::July => 6,
            MonthNames::August => 7,
            MonthNames::September => 8,
            MonthNames::October => 9,
            MonthNames::November => 10,
            MonthNames::December => 11,
        }
    }

    /// The month with 0-based index `i`; `None` when there is no such month.
    pub fn from_u32(i: u32) -> (r: Option<MonthNames>)
        ensures
            r.is_some() <==> i < 12,
            r matches Some(m) ==> m.index() == i,
    {
        match i {
            0 => Some(MonthNames::January),
            1 => Some(MonthNames::February),
            2 => Some(MonthNames::March),
            3 => Some(MonthNames::April),
            4 => Some(MonthNames::May),
            5 => Some(MonthNames::June),
            6 => Some(MonthNames::July),
            7 => Some(MonthNames::August),
            8 => Some(MonthNames::September),
            9 => Some(MonthNames::October),
            10 => Some(MonthNames::November),
            11 => Some(MonthNames::December),
            _ => None,
        }
    }

    /// The month's English name, as "January".
    pub fn name(&self) -> (r: String)
        ensures
            r@ == month_name(self.index()),
    {
        let s = match self {
            MonthNames::January => "January",
            MonthNames::February => "February",
            MonthNames::March => "March",
            MonthNames::April => "April",
            MonthNames::May => "May",
            MonthNames::June => "June",
            MonthNames::July => "July",
            MonthNames::August => "August",
            MonthNames::September => "September",
            MonthNames::October => "October",
            MonthNames::November => "November",
            MonthNames::December => "December",
        };
        String::from_str(s)
    }
}

/// The decimal digit for `d` (0..=9).
pub open spec fn digit_char(d: int) -> char {
    seq!['0', '1', '2', '3', '4', '5', '6', '7', '8', '9'][d]
}

/// The decimal numeral of `n`, without leading zeros.
pub open spec fn decimal(n: nat) -> Seq<char>
    decreases n,
{
    if n < 10 {
        seq![digit_char(n as int)]
    } else {
        decimal(n / 10) + seq![digit_char((n % 10) as int)]
    }
}

/// The decimal numeral of `n`, with a leading '-' when negative.
pub open spec fn signed_decimal(n: int) -> Seq<char> {
    if n < 0 {
        seq!['-'] + decimal((-n) as nat)
    } else {
        decimal(n as nat)
    }
}

fn digit_str(d: u64) -> (r: &'static str)
    requires
        d < 10,
    ensures
        r@ == seq![digit_char(d as int)],
{
    let r = match d {
        0 => "0",
        1 => "1",
        2 => "2",
        3 => "3",
        4 => "4",
        5 => "5",
        6 => "6",
        7 => "7",
        8 => "8",
        _ => "9",
    };
    proof {
        reveal_strlit("0");
        reveal_strlit("1");
        reveal_strlit("2");
        reveal_strlit("3");
        reveal_strlit("4");
        reveal_strlit("5");
        reveal_strlit("6");
        reveal_strlit("7");
        reveal_strlit("8");
        reveal_strlit("9");
        assert(r@ =~= seq![digit_char(d as int)]);
    }
    r
}

/// `n` written in decimal.
pub fn decimal_string(n: u64) -> (r: String)
    ensures
        r@ == decimal(n as nat),
    decreases n,
{
    if n < 10 {
        String::from_str(digit_str(n))
    } else {
        let mut s = decimal_string(n / 10);
        s.append(digit_str(n % 10));
        s
    }
}

/// `n` written in decimal, with a leading '-' when negative.
pub fn signed_decimal_string(n: i32) -> (r: String)
    ensures
        r@ == signed_decimal(n as int),
{
    if n < 0 {
        let m: i64 = -(n as i64);
        let digits = decimal_string(m as u64);
        let mut s = String::from_str("-");
        s.append(digits.as_str());
        proof {
            reveal_strlit("-");
        }
        s
    } else {
        decimal_string(n as u64)
    }
}

} // verus!
