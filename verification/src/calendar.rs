//! Civil time: seconds of a wall clock, and the calendar over them.
//!
//! A civil time counts the seconds since 1970-01-01 00:00:00 of a wall clock,
//! without leap seconds. The calendar itself is that of the `chrono` crate.
use chrono::{DateTime, Datelike, NaiveDate, NaiveDateTime, NaiveTime};
use vstd::prelude::*;

use crate::text::padded;

verus! {

/// The earliest and the latest civil time that calendar functions take; the
/// date library covers a few years more on either side.
pub const CIVIL_MIN: i64 = -8_334_000_000_000;

pub const CIVIL_MAX: i64 = 8_210_000_000_000;

pub open spec fn in_calendar(civil: int) -> bool {
    CIVIL_MIN <= civil <= CIVIL_MAX
}

pub open spec fn is_leap(year: int) -> bool {
    year % 4 == 0 && (year % 100 != 0 || year % 400 == 0)
}

pub open spec fn month_days(year: int, month: int) -> int {
    if month == 2 {
        if is_leap(year) {
            29
        } else {
            28
        }
    } else if month == 4 || month == 6 || month == 9 || month == 11 {
        30
    } else {
        31
    }
}

/// The days of a year before the first day of a month.
pub open spec fn days_before(year: int, month: int) -> int
    decreases month,
{
    if month <= 1 {
        0
    } else {
        days_before(year, month - 1) + month_days(year, month - 1)
    }
}

/// The number of the first day of a year, where 1970-01-01 is day zero.
pub open spec fn year_start(year: int) -> int {
    365 * (year - 1) + (year - 1) / 4 - (year - 1) / 100 + (year - 1) / 400 - 719_162
}

pub open spec fn is_date(year: int, month: int, day: int) -> bool {
    1 <= month <= 12 && 1 <= day <= month_days(year, month)
}

/// The number of a day of the proleptic Gregorian calendar.
pub open spec fn day_number(year: int, month: int, day: int) -> int {
    year_start(year) + days_before(year, month) + day - 1
}

/// A date in the years that the date library covers.
pub open spec fn has_midnight(year: int, month: int, day: int) -> bool {
    is_date(year, month, day) && -262_143 <= year <= 262_142
}

/// Whether `(year, month, day)` is the date of a day number.
pub open spec fn is_date_of(date: (int, int, int), day: int) -> bool {
    is_date(date.0, date.1, date.2) && day_number(date.0, date.1, date.2) == day
}

/// The date of a day number.
pub open spec fn date_of_day(day: int) -> (int, int, int) {
    choose|date: (int, int, int)| is_date_of(date, day)
}

pub open spec fn day_of(civil: int) -> int {
    civil / 86_400
}

pub open spec fn second_of_day(civil: int) -> int {
    civil % 86_400
}

pub open spec fn year_of(civil: int) -> int {
    date_of_day(day_of(civil)).0
}

pub open spec fn month_of(civil: int) -> int {
    date_of_day(day_of(civil)).1
}

/// Days since Monday; day zero was a Thursday.
pub open spec fn weekday_of(civil: int) -> int {
    (day_of(civil) + 3) % 7
}

/// A year as `%Y` renders it.
pub open spec fn year_text(year: int) -> Seq<char> {
    if 0 <= year <= 9_999 {
        padded(year as nat, 4)
    } else if year < 0 {
        "-"@ + padded((-year) as nat, 4)
    } else {
        "+"@ + padded(year as nat, 4)
    }
}

/// The text `YEAR-MONTH-DAY_HOUR:MINUTE:SECOND`.
pub open spec fn stamp(date: (int, int, int), second: int) -> Seq<char> {
    year_text(date.0) + "-"@ + padded(date.1 as nat, 2) + "-"@ + padded(date.2 as nat, 2) + "_"@
        + padded((second / 3_600) as nat, 2) + ":"@ + padded((second % 3_600 / 60) as nat, 2) + ":"@
        + padded((second % 60) as nat, 2)
}

/// The stamp of a civil time.
pub open spec fn civil_stamp(civil: int) -> Seq<char> {
    stamp(date_of_day(day_of(civil)), second_of_day(civil))
}

/// Whether `chrono` parses a text as `%Y-%m-%d_%H:%M:%S`.
pub uninterp spec fn stamp_parses(text: Seq<char>) -> bool;

/// The year, month and day of a civil time, from `chrono`'s
/// `DateTime::from_timestamp` and its `year`, `month` and `day`: the one date
/// of the proleptic Gregorian calendar with that day number.
#[verifier::external_body]
fn chrono_date(civil: i64) -> (res: (i32, u32, u32))
    requires
        in_calendar(civil as int),
    ensures
        is_date_of((res.0 as int, res.1 as int, res.2 as int), day_of(civil as int)),
        res.0 > -262_143,
        res.0 < 262_142,
{
    let date = DateTime::from_timestamp(civil, 0).unwrap().date_naive();
    (date.year(), date.month(), date.day())
}

/// The civil time of the midnight that begins a day, from `chrono`'s
/// `NaiveDate::from_ymd_opt`: there is one exactly for a date of the calendar
/// in the years that the crate covers.
#[verifier::external_body]
pub(crate) fn midnight(year: i32, month: u32, day: u32) -> (res: Option<i64>)
    ensures
        match res {
            Some(civil) => has_midnight(year as int, month as int, day as int) && civil
                == day_number(year as int, month as int, day as int) * 86_400,
            None => !has_midnight(year as int, month as int, day as int),
        },
{
    match NaiveDate::from_ymd_opt(year, month, day) {
        Some(date) => Some(date.and_time(NaiveTime::MIN).and_utc().timestamp()),
        None => None,
    }
}

/// Renders a civil time with `chrono`'s `format` and the pattern
/// `%Y-%m-%d_%H:%M:%S`: four digits of the year, with a sign outside the years
/// zero to 9999, and two digits of every other part. In those years,
/// `NaiveDateTime::parse_from_str` takes the text under the same pattern.
#[verifier::external_body]
pub(crate) fn format_stamp(civil: i64) -> (res: String)
    requires
        in_calendar(civil as int),
    ensures
        forall|date: (int, int, int)| #[trigger]
            is_date_of(date, day_of(civil as int)) ==> res@ == stamp(
                date,
                second_of_day(civil as int),
            ),
        forall|date: (int, int, int)| #[trigger]
            is_date_of(date, day_of(civil as int)) && 0 <= date.0 <= 9_999 ==> stamp_parses(res@),
{
    DateTime::from_timestamp(civil, 0).unwrap().naive_utc().format("%Y-%m-%d_%H:%M:%S").to_string()
}

/// Whether `chrono`'s `NaiveDateTime::parse_from_str` takes a text under the
/// pattern `%Y-%m-%d_%H:%M:%S`. The grammar of that function is wider than the
/// texts that `format_stamp` gives and is left unsaid, but for this: it takes
/// the stamp of every date of the years zero to 9999 and second of the day.
#[verifier::external_body]
pub(crate) fn parses_as_stamp(text: &str) -> (res: bool)
    ensures
        res == stamp_parses(text@),
        forall|date: (int, int, int), second: int|
            is_date(date.0, date.1, date.2) && 0 <= date.0 <= 9_999 && 0 <= second < 86_400
                && text@ == #[trigger] stamp(date, second) ==> res,
{
    NaiveDateTime::parse_from_str(text, "%Y-%m-%d_%H:%M:%S").is_ok()
}

// ---------------------------------------------------------------------------
// The calendar is one to one
// ---------------------------------------------------------------------------

pub proof fn lemma_days_before(year: int)
    ensures
        days_before(year, 1) == 0,
        days_before(year, 2) == 31,
        days_before(year, 3) == 31 + month_days(year, 2),
        days_before(year, 4) == 62 + month_days(year, 2),
        days_before(year, 5) == 92 + month_days(year, 2),
        days_before(year, 6) == 123 + month_days(year, 2),
        days_before(year, 7) == 153 + month_days(year, 2),
        days_before(year, 8) == 184 + month_days(year, 2),
        days_before(year, 9) == 215 + month_days(year, 2),
        days_before(year, 10) == 245 + month_days(year, 2),
        days_before(year, 11) == 276 + month_days(year, 2),
        days_before(year, 12) == 306 + month_days(year, 2),
        days_before(year, 13) == 337 + month_days(year, 2),
{
    reveal_with_fuel(days_before, 14);
}

pub proof fn lemma_year_length(year: int)
    ensures
        year_start(year + 1) == year_start(year) + days_before(year, 13),
{
    lemma_days_before(year);
}

/// Later years start later.
pub proof fn lemma_year_start_grows(a: int, b: int)
    requires
        a <= b,
    ensures
        year_start(a) <= year_start(b),
        a < b ==> year_start(a + 1) <= year_start(b),
    decreases b - a,
{
    if a < b {
        lemma_year_start_grows(a, b - 1);
        lemma_year_length(b - 1);
        lemma_days_before(b - 1);
        if a < b - 1 {
            lemma_year_start_grows(a + 1, b - 1);
        }
    }
}

/// A date lies within its year.
pub proof fn lemma_date_in_year(year: int, month: int, day: int)
    requires
        is_date(year, month, day),
    ensures
        year_start(year) <= day_number(year, month, day) < year_start(year + 1),
{
    lemma_days_before(year);
    lemma_year_length(year);
}

/// The order of dates is the order of their numbers.
pub proof fn lemma_date_order(a: (int, int, int), b: (int, int, int))
    requires
        is_date(a.0, a.1, a.2),
        is_date(b.0, b.1, b.2),
        a.0 < b.0 || (a.0 == b.0 && (a.1 < b.1 || (a.1 == b.1 && a.2 < b.2))),
    ensures
        day_number(a.0, a.1, a.2) < day_number(b.0, b.1, b.2),
{
    lemma_date_in_year(a.0, a.1, a.2);
    lemma_date_in_year(b.0, b.1, b.2);
    lemma_days_before(a.0);
    if a.0 < b.0 {
        lemma_year_start_grows(a.0 + 1, b.0);
    }
}

/// A day number has one date.
pub proof fn lemma_date_unique(date: (int, int, int), day: int)
    requires
        is_date_of(date, day),
    ensures
        date_of_day(day) == date,
{
    let other = date_of_day(day);
    assert(is_date_of(other, day));
    if other != date {
        if other.0 < date.0 || (other.0 == date.0 && (other.1 < date.1 || (other.1 == date.1
            && other.2 < date.2))) {
            lemma_date_order(other, date);
        } else {
            lemma_date_order(date, other);
        }
    }
}

/// The year and the month of a civil time.
pub(crate) fn year_and_month(civil: i64) -> (res: (i32, u32))
    requires
        in_calendar(civil as int),
    ensures
        res.0 == year_of(civil as int),
        res.1 == month_of(civil as int),
        1 <= res.1 <= 12,
        -262_143 < res.0 < 262_142,
        is_date_of(date_of_day(day_of(civil as int)), day_of(civil as int)),
{
    let (year, month, day) = chrono_date(civil);
    proof {
        lemma_date_unique((year as int, month as int, day as int), day_of(civil as int));
    }
    (year, month)
}

/// The stamp of a civil time. It parses in the years zero to 9999.
pub(crate) fn stamp_text(civil: i64) -> (res: String)
    requires
        in_calendar(civil as int),
    ensures
        res@ == civil_stamp(civil as int),
        is_date_of(date_of_day(day_of(civil as int)), day_of(civil as int)),
        0 <= year_of(civil as int) <= 9_999 ==> stamp_parses(res@),
{
    let (year, month) = year_and_month(civil);
    format_stamp(civil)
}

} // verus!
