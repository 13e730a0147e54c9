//! Calendar facts of timestamps, read through chrono, and labels.

use vstd::prelude::*;
use vstd::string::StringExecFns;

verus! {

/// Smallest year of the calendar that dates are read in.
pub const MIN_YEAR: i32 = -262143;

/// Largest year of the calendar that dates are read in.
pub const MAX_YEAR: i32 = 262142;

/// Leap years of the proleptic Gregorian calendar.
pub open spec fn is_leap_year(year: int) -> bool {
    year % 4 == 0 && (year % 100 != 0 || year % 400 == 0)
}

pub open spec fn days_in_month(year: int, month: int) -> int {
    if month == 2 {
        if is_leap_year(year) { 29 } else { 28 }
    } else if month == 4 || month == 6 || month == 9 || month == 11 {
        30
    } else {
        31
    }
}

/// A day of the proleptic Gregorian calendar within the supported years.
pub open spec fn is_valid_date(year: int, month: int, day: int) -> bool {
    &&& MIN_YEAR <= year <= MAX_YEAR
    &&& 1 <= month <= 12
    &&& 1 <= day <= days_in_month(year, month)
}

/// Days of the months of `year` before `month`.
pub open spec fn days_before_month(year: int, month: int) -> int
    decreases month,
{
    if month <= 1 {
        0
    } else {
        days_before_month(year, month - 1) + days_in_month(year, month - 1)
    }
}

/// Days since the start of the common era of a date of the proleptic Gregorian calendar
/// (0001-01-01 is day 1, 0000-12-31 is day 0).
pub open spec fn day_number_of(year: int, month: int, day: int) -> int {
    let y = year - 1;
    365 * y + y / 4 - y / 100 + y / 400 + days_before_month(year, month) + day
}

/// Day of the week of a date, 0 for Monday up to 6 for Sunday (0001-01-01 was a Monday).
pub open spec fn weekday_of(year: int, month: int, day: int) -> int {
    (day_number_of(year, month, day) + 6) % 7
}

/// ISO 8601 week-numbering year and week of a date.
pub uninterp spec fn iso_week_of(year: i32, month: u32, day: u32) -> (i32, u32);

/// Decimal digits of `n`, with leading zeros up to `width` digits.
pub open spec fn zero_padded(n: nat, width: nat) -> Seq<char> {
    let digits = decimal(n);
    if digits.len() < width {
        Seq::new((width - digits.len()) as nat, |i: int| '0') + digits
    } else {
        digits
    }
}

/// The `YYYY-MM` key of a calendar month: the year has four digits at least, with a sign
/// when outside 0 to 9999, and the month has two.
pub open spec fn month_key_of(year: int, month: int) -> Seq<char> {
    let sign = if year < 0 {
        seq!['-']
    } else if year > 9999 {
        seq!['+']
    } else {
        Seq::<char>::empty()
    };
    let magnitude = if year < 0 { -year } else { year };
    sign + zero_padded(magnitude as nat, 4) + seq!['-'] + zero_padded(month as nat, 2)
}

/// Seconds past midnight of a `HH:MM:SS` clock text, if it reads as one.
pub uninterp spec fn clock_seconds_of(text: Seq<char>) -> Option<u32>;

/// Relies on chrono's `NaiveDate::from_ymd_opt`, which accepts exactly the valid dates of
/// its year range, and `Datelike::num_days_from_ce`, which counts days from 0001-01-01.
#[verifier::external_body]
fn checked_day_number(year: i32, month: u32, day: u32) -> (r: Option<i32>)
    ensures
        r.is_some() == is_valid_date(year as int, month as int, day as int),
        r matches Some(n) ==> n == day_number_of(year as int, month as int, day as int),
{
    match chrono::NaiveDate::from_ymd_opt(year, month, day) {
        Some(date) => Some(chrono::Datelike::num_days_from_ce(&date)),
        None => None,
    }
}

/// Relies on chrono's `Datelike::weekday` with `Weekday::num_days_from_monday`: the weekday
/// of the proleptic Gregorian calendar counted from Monday, in which 0001-01-01 is a Monday.
#[verifier::external_body]
fn weekday_index(year: i32, month: u32, day: u32) -> (r: u32)
    requires
        is_valid_date(year as int, month as int, day as int),
    ensures
        r == weekday_of(year as int, month as int, day as int),
{
    let date = chrono::NaiveDate::from_ymd_opt(year, month, day).unwrap();
    chrono::Datelike::weekday(&date).num_days_from_monday()
}

/// Relies on chrono's `Datelike::iso_week`, whose `week` lies in 1 to 53.
#[verifier::external_body]
fn iso_week(year: i32, month: u32, day: u32) -> (r: (i32, u32))
    requires
        is_valid_date(year as int, month as int, day as int),
    ensures
        r == iso_week_of(year, month, day),
        1 <= r.1 <= 53,
{
    let week = chrono::Datelike::iso_week(&chrono::NaiveDate::from_ymd_opt(year, month, day).unwrap());
    (week.year(), week.week())
}

/// Relies on chrono's `NaiveDate::format` with `%Y-%m`, applied to the first day of the month:
/// `%Y` writes at least four digits, with a sign outside 0 to 9999, and `%m` two digits.
#[verifier::external_body]
pub(crate) fn month_key(year: i32, month: u32) -> (r: String)
    requires
        is_valid_date(year as int, month as int, 1),
    ensures
        r@ == month_key_of(year as int, month as int),
{
    chrono::NaiveDate::from_ymd_opt(year, month, 1).unwrap().format("%Y-%m").to_string()
}

/// Relies on chrono's `NaiveTime::parse_from_str` with `%H:%M:%S` and
/// `Timelike::num_seconds_from_midnight`, which lies below 86400.
#[verifier::external_body]
pub(crate) fn parse_clock_seconds(text: &str) -> (r: Option<u32>)
    ensures
        r == clock_seconds_of(text@),
        r matches Some(n) ==> n < 86400,
{
    match chrono::NaiveTime::parse_from_str(text, "%H:%M:%S") {
        Ok(time) => Some(chrono::Timelike::num_seconds_from_midnight(&time)),
        Err(_) => None,
    }
}

pub open spec fn digit_char(d: int) -> char {
    if d == 0 { '0' }
    else if d == 1 { '1' }
    else if d == 2 { '2' }
    else if d == 3 { '3' }
    else if d == 4 { '4' }
    else if d == 5 { '5' }
    else if d == 6 { '6' }
    else if d == 7 { '7' }
    else if d == 8 { '8' }
    else { '9' }
}

/// Decimal digits of a natural number, without leading zeros.
pub open spec fn decimal(n: nat) -> Seq<char>
    decreases n,
{
    if n < 10 {
        seq![digit_char(n as int)]
    } else {
        decimal(n / 10).push(digit_char((n % 10) as int))
    }
}

/// Decimal text of an integer, with a leading `-` when negative.
pub open spec fn signed_decimal(v: int) -> Seq<char> {
    if v < 0 {
        seq!['-'] + decimal((-v) as nat)
    } else {
        decimal(v as nat)
    }
}

/// The label `{year}-W{week}` of an ISO week.
pub open spec fn week_label_text(year: int, week: int) -> Seq<char> {
    signed_decimal(year) + seq!['-', 'W'] + decimal(week as nat)
}

/// The label `HH:00` of an hour of the day.
pub open spec fn hour_label_text(hour: int) -> Seq<char> {
    seq![digit_char(hour / 10), digit_char(hour % 10), ':', '0', '0']
}

/// The one-character text of a decimal digit.
fn digit_text(d: u64) -> (r: &'static str)
    requires
        d < 10,
    ensures
        r@ == seq![digit_char(d as int)],
{
    if d == 0 {
        proof { reveal_strlit("0"); }
        "0"
    } else if d == 1 {
        proof { reveal_strlit("1"); }
        "1"
    } else if d == 2 {
        proof { reveal_strlit("2"); }
        "2"
    } else if d == 3 {
        proof { reveal_strlit("3"); }
        "3"
    } else if d == 4 {
        proof { reveal_strlit("4"); }
        "4"
    } else if d == 5 {
        proof { reveal_strlit("5"); }
        "5"
    } else if d == 6 {
        proof { reveal_strlit("6"); }
        "6"
    } else if d == 7 {
        proof { reveal_strlit("7"); }
        "7"
    } else if d == 8 {
        proof { reveal_strlit("8"); }
        "8"
    } else {
        proof { reveal_strlit("9"); }
        "9"
    }
}

/// Decimal digits of `n`, without leading zeros.
pub fn decimal_text(n: u64) -> (r: String)
    ensures
        r@ == decimal(n as nat),
    decreases n,
{
    if n < 10 {
        String::from_str(digit_text(n))
    } else {
        let mut r = decimal_text(n / 10);
        r.append(digit_text(n % 10));
        r
    }
}

/// Decimal text of `v`, with a leading `-` when negative.
pub fn signed_decimal_text(v: i64) -> (r: String)
    requires
        v > i64::MIN,
    ensures
        r@ == signed_decimal(v as int),
{
    if v < 0 {
        proof { reveal_strlit("-"); }
        String::from_str("-").concat(decimal_text((-v) as u64).as_str())
    } else {
        decimal_text(v as u64)
    }
}

/// The label `{year}-W{week}` of an ISO week.
pub fn week_label(year: i32, week: u32) -> (r: String)
    ensures
        r@ == week_label_text(year as int, week as int),
{
    proof { reveal_strlit("-W"); }
    let r = signed_decimal_text(year as i64).concat("-W").concat(decimal_text(week as u64).as_str());
    assert(r@ =~= week_label_text(year as int, week as int));
    r
}

/// The label `HH:00` of an hour of the day below 100.
pub fn hour_label(hour: u32) -> (r: String)
    requires
        hour < 100,
    ensures
        r@ == hour_label_text(hour as int),
{
    proof { reveal_strlit(":00"); }
    let r = String::from_str(digit_text((hour / 10) as u64))
        .concat(digit_text((hour % 10) as u64))
        .concat(":00");
    assert(r@ =~= hour_label_text(hour as int));
    r
}

/// A naive local date and time, with the calendar facts that aggregation reads.
#[derive(Clone, Copy, Debug, PartialEq, Eq)]
pub struct Timestamp {
    pub year: i32,
    pub month: u32,
    pub day: u32,
    pub hour: u32,
    pub minute: u32,
    pub second: u32,
    /// Days since the start of the common era (0001-01-01 is day 1).
    pub day_number: i32,
    /// 0 for Monday up to 6 for Sunday.
    pub weekday: u32,
    pub iso_year: i32,
    pub iso_week: u32,
}

impl Timestamp {
    /// The calendar facts are those of the date and the clock fields are in range.
    pub open spec fn wf(&self) -> bool {
        &&& is_valid_date(self.year as int, self.month as int, self.day as int)
        &&& self.hour < 24 && self.minute < 60 && self.second < 60
        &&& self.day_number == day_number_of(self.year as int, self.month as int, self.day as int)
        &&& self.weekday == weekday_of(self.year as int, self.month as int, self.day as int)
        &&& self.weekday < 7
        &&& (self.iso_year, self.iso_week) == iso_week_of(self.year, self.month, self.day)
    }

    /// Builds a timestamp, or `None` when the date or the clock time does not exist.
    pub fn new(year: i32, month: u32, day: u32, hour: u32, minute: u32, second: u32) -> (r: Option<
        Timestamp,
    >)
        ensures
            r.is_some() == (is_valid_date(year as int, month as int, day as int) && hour < 24
                && minute < 60 && second < 60),
            r matches Some(t) ==> t.wf() && t.year == year && t.month == month && t.day == day
                && t.hour == hour && t.minute == minute && t.second == second,
    {
        if hour >= 24 || minute >= 60 || second >= 60 {
            return None;
        }
        match checked_day_number(year, month, day) {
            None => None,
            Some(day_number) => {
                let weekday = weekday_index(year, month, day);
                let (iso_year, iso_week) = iso_week(year, month, day);
                Some(
                    Timestamp {
                        year,
                        month,
                        day,
                        hour,
                        minute,
                        second,
                        day_number,
                        weekday,
                        iso_year,
                        iso_week,
                    },
                )
            },
        }
    }
}

} // verus!
