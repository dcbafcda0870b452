//! The civil calendar: the Gregorian date and the time of day of an instant,
//! counted from the Unix epoch without regard to any time zone.

use crate::clock::{digits_between, is_date_time, is_digit};
use crate::text::{append_chars, decimal_digits, digit, digit_char, digits};
use vstd::prelude::*;

verus! {

/// `year` has a 29th of February: it is a multiple of 4, and no multiple of
/// 100 unless one of 400.
pub open spec fn is_leap_year(year: int) -> bool {
    year % 4 == 0 && (year % 100 != 0 || year % 400 == 0)
}

/// The number of days of `year`.
pub open spec fn days_in_year(year: int) -> int {
    if is_leap_year(year) {
        366
    } else {
        365
    }
}

/// The number of leap years among the years 1 to `year - 1`.
pub open spec fn leap_years_before(year: int) -> int {
    (year - 1) / 4 - (year - 1) / 100 + (year - 1) / 400
}

/// The number of days from 1 January 1970 to 1 January of `year`.
pub open spec fn days_before_year(year: int) -> int {
    365 * (year - 1970) + leap_years_before(year) - leap_years_before(1970)
}

/// The number of days of the month with number `month`, from 1 to 12, in
/// `year`.
pub open spec fn days_in_month(year: int, month: int) -> int {
    if month == 2 {
        if is_leap_year(year) {
            29
        } else {
            28
        }
    } else if month == 4 || month == 6 || month == 9 || month == 11 {
        30
    } else {
        31
    }
}

/// The number of days of `year` that lie before the first of `month`.
pub open spec fn days_before_month(year: int, month: int) -> int {
    let leap_day: int = if is_leap_year(year) && month > 2 {
        1
    } else {
        0
    };
    let before: int = if month <= 1 {
        0
    } else if month == 2 {
        31
    } else if month == 3 {
        59
    } else if month == 4 {
        90
    } else if month == 5 {
        120
    } else if month == 6 {
        151
    } else if month == 7 {
        181
    } else if month == 8 {
        212
    } else if month == 9 {
        243
    } else if month == 10 {
        273
    } else if month == 11 {
        304
    } else {
        334
    };
    before + leap_day
}

/// The day with number `days`, counted from 1 January 1970 as day 0, is the
/// day `day` of the month `month` of `year`.
pub open spec fn is_date_of_day(days: int, year: int, month: int, day: int) -> bool {
    &&& year >= 1970
    &&& 1 <= month <= 12
    &&& 1 <= day <= days_in_month(year, month)
    &&& days == days_before_year(year) + days_before_month(year, month) + day - 1
}

/// The year in which the day with number `days` falls. The days since
/// 1 January of the year 1 are divided into spans of 400 years (146097
/// days), what is left into spans of 100 years (36524 days), then of 4 years
/// (1461 days), then of single years (365 days). No more than three spans of
/// 100 years and three single years are taken: the day that would begin a
/// fourth is the last day of a leap year.
pub open spec fn year_of(days: int) -> int {
    let n = days + 719162;
    let in_400 = n % 146097;
    let centuries: int = if in_400 / 36524 < 3 {
        in_400 / 36524
    } else {
        3
    };
    let in_100 = in_400 - centuries * 36524;
    let in_4 = in_100 % 1461;
    let years: int = if in_4 / 365 < 3 {
        in_4 / 365
    } else {
        3
    };
    400 * (n / 146097) + 100 * centuries + 4 * (in_100 / 1461) + years + 1
}

/// The number of the day with number `days` within its year, from 0.
pub open spec fn day_of_year(days: int) -> int {
    days - days_before_year(year_of(days))
}

/// What is left of the day with number `days` once the spans of 400, 100
/// and 4 years and the single years before it are taken away.
pub open spec fn day_in_spans(days: int) -> int {
    let in_400 = (days + 719162) % 146097;
    let centuries: int = if in_400 / 36524 < 3 {
        in_400 / 36524
    } else {
        3
    };
    let in_4 = (in_400 - centuries * 36524) % 1461;
    let years: int = if in_4 / 365 < 3 {
        in_4 / 365
    } else {
        3
    };
    in_4 - 365 * years
}

/// The month, from 1 to 12, in which the day with number `days` falls.
pub open spec fn month_of(days: int) -> int {
    let year = year_of(days);
    let d = day_of_year(days);
    if d < days_before_month(year, 2) {
        1
    } else if d < days_before_month(year, 3) {
        2
    } else if d < days_before_month(year, 4) {
        3
    } else if d < days_before_month(year, 5) {
        4
    } else if d < days_before_month(year, 6) {
        5
    } else if d < days_before_month(year, 7) {
        6
    } else if d < days_before_month(year, 8) {
        7
    } else if d < days_before_month(year, 9) {
        8
    } else if d < days_before_month(year, 10) {
        9
    } else if d < days_before_month(year, 11) {
        10
    } else if d < days_before_month(year, 12) {
        11
    } else {
        12
    }
}

/// The day of the month, from 1, of the day with number `days`.
pub open spec fn day_of_month(days: int) -> int {
    day_of_year(days) - days_before_month(year_of(days), month_of(days)) + 1
}

/// A year is as long as the distance between its first day and the first
/// day of the next year.
pub proof fn lemma_year_length(year: int)
    ensures
        days_before_year(year + 1) == days_before_year(year) + days_in_year(year),
{
    let by_4: int = if year % 4 == 0 {
        1
    } else {
        0
    };
    let by_100: int = if year % 100 == 0 {
        1
    } else {
        0
    };
    let by_400: int = if year % 400 == 0 {
        1
    } else {
        0
    };
    assert(year / 4 - (year - 1) / 4 == by_4);
    assert(year / 100 - (year - 1) / 100 == by_100);
    assert(year / 400 - (year - 1) / 400 == by_400);
    assert(year % 100 == 0 ==> year % 4 == 0) by {
        assert(year % 100 == 0 ==> year == 4 * (25 * (year / 100)));
    }
    assert(year % 400 == 0 ==> year % 100 == 0) by {
        assert(year % 400 == 0 ==> year == 100 * (4 * (year / 400)));
    }
    assert(leap_years_before(year + 1) - leap_years_before(year) == by_4 - by_100 + by_400);
}

/// A month is as long as the distance between its first day and the first
/// day of the next month, and the twelve months make up the year.
pub proof fn lemma_month_length(year: int, month: int)
    requires
        1 <= month <= 12,
    ensures
        days_before_month(year, month) + days_in_month(year, month) == if month < 12 {
            days_before_month(year, month + 1)
        } else {
            days_in_year(year)
        },
{
}

proof fn lemma_leap_count(spans: int, centuries: int, fours: int, years: int)
    requires
        0 <= spans,
        0 <= centuries <= 3,
        0 <= fours <= 24,
        0 <= years <= 3,
    ensures
        ({
            let year = 400 * spans + 100 * centuries + 4 * fours + years + 1;
            &&& leap_years_before(year) == 97 * spans + 24 * centuries + fours
            &&& is_leap_year(year) <==> years == 3 && (fours < 24 || centuries == 3)
        }),
{
    let year = 400 * spans + 100 * centuries + 4 * fours + years + 1;
    assert((year - 1) / 4 == 100 * spans + 25 * centuries + fours);
    assert((year - 1) / 100 == 4 * spans + centuries);
    assert((year - 1) / 400 == spans);
    assert(year % 4 == 0 <==> years == 3);
    if years == 3 {
        assert(year == 4 * (100 * spans + 25 * centuries + fours + 1));
        assert(year % 100 == 0 <==> fours == 24);
        if fours == 24 {
            assert(year == 100 * (4 * spans + centuries + 1));
            assert(year % 400 == 0 <==> centuries == 3);
        }
    }
}

/// The year of a day is the year that holds it: the day lies at or after
/// the year's first day and before the first day of the next year.
pub proof fn lemma_year_of(days: int)
    requires
        0 <= days,
    ensures
        year_of(days) >= 1970,
        0 <= day_of_year(days) < days_in_year(year_of(days)),
        day_of_year(days) == day_in_spans(days),
{
    let n = days + 719162;
    let spans = n / 146097;
    let in_400 = n % 146097;
    let centuries: int = if in_400 / 36524 < 3 {
        in_400 / 36524
    } else {
        3
    };
    let in_100 = in_400 - centuries * 36524;
    let fours = in_100 / 1461;
    let in_4 = in_100 % 1461;
    let years: int = if in_4 / 365 < 3 {
        in_4 / 365
    } else {
        3
    };
    let rest = in_4 - 365 * years;
    assert(0 <= in_100 <= 36524 && (in_100 == 36524 ==> centuries == 3));
    assert(0 <= fours <= 24);
    assert(0 <= rest <= 365 && (rest == 365 ==> years == 3 && in_4 == 1460));
    assert(n == 146097 * spans + 36524 * centuries + 1461 * fours + 365 * years + rest);
    assert(spans >= 4);
    lemma_leap_count(spans, centuries, fours, years);
    assert(leap_years_before(1970) == 477);
    if rest == 365 && fours == 24 {
        assert(in_100 == 36524);
    }
}

/// The date of a day: the year, month and day of the month given for it are
/// a date of the calendar, and that date is the day.
pub proof fn lemma_date_of_day(days: int)
    requires
        0 <= days,
    ensures
        is_date_of_day(days, year_of(days), month_of(days), day_of_month(days)),
{
    lemma_year_of(days);
}

/// The first day of a later year is a later day.
pub proof fn lemma_years_ascend(earlier: int, later: int)
    requires
        earlier <= later,
    ensures
        days_before_year(earlier) <= days_before_year(later),
    decreases later - earlier,
{
    if earlier < later {
        lemma_years_ascend(earlier, later - 1);
        lemma_year_length(later - 1);
    }
}

/// A day has one date only.
pub proof fn lemma_date_is_unique(days: int, year: int, month: int, day: int)
    requires
        0 <= days,
        is_date_of_day(days, year, month, day),
    ensures
        year == year_of(days),
        month == month_of(days),
        day == day_of_month(days),
{
    lemma_year_of(days);
    lemma_year_length(year);
    lemma_year_length(year_of(days));
    lemma_month_length(year, month);
    if year < year_of(days) {
        lemma_years_ascend(year + 1, year_of(days));
    } else if year > year_of(days) {
        lemma_years_ascend(year_of(days) + 1, year);
    }
}

/// A date of the calendar: the year, the month from 1 to 12 and the day of
/// the month from 1.
pub struct CivilDate {
    pub year: u64,
    pub month: u64,
    pub day: u64,
}

fn month_start(leap: bool, month: u64) -> (before: u64)
    ensures
        forall|year: int|
            is_leap_year(year) == leap ==> before == #[trigger] days_before_month(
                year,
                month as int,
            ),
        before <= 335,
{
    let leap_day: u64 = if leap && month > 2 {
        1
    } else {
        0
    };
    let before: u64 = if month <= 1 {
        0
    } else if month == 2 {
        31
    } else if month == 3 {
        59
    } else if month == 4 {
        90
    } else if month == 5 {
        120
    } else if month == 6 {
        151
    } else if month == 7 {
        181
    } else if month == 8 {
        212
    } else if month == 9 {
        243
    } else if month == 10 {
        273
    } else if month == 11 {
        304
    } else {
        334
    };
    before + leap_day
}

/// The date of the day with number `days`, counted from 1 January 1970 as
/// day 0.
pub fn civil_date(days: u64) -> (date: CivilDate)
    ensures
        date.year == year_of(days as int),
        date.month == month_of(days as int),
        date.day == day_of_month(days as int),
{
    proof {
        lemma_year_of(days as int);
    }
    let n: u128 = days as u128 + 719162;
    let in_400 = n % 146097;
    let centuries: u128 = if in_400 / 36524 < 3 {
        in_400 / 36524
    } else {
        3
    };
    let in_100 = in_400 - centuries * 36524;
    let in_4 = in_100 % 1461;
    let years: u128 = if in_4 / 365 < 3 {
        in_4 / 365
    } else {
        3
    };
    let year = (400 * (n / 146097) + 100 * centuries + 4 * (in_100 / 1461) + years + 1) as u64;
    let d = (in_4 - 365 * years) as u64;
    let leap = year % 4 == 0 && (year % 100 != 0 || year % 400 == 0);
    let mut month: u64 = 1;
    while month < 12 && d >= month_start(leap, month + 1)
        invariant
            1 <= month <= 12,
            leap == is_leap_year(year as int),
            d >= days_before_month(year as int, month as int),
        decreases 12 - month,
    {
        month += 1;
    }
    CivilDate { year, month, day: d - month_start(leap, month) + 1 }
}

/// `n` in two digits.
pub open spec fn two_digits(n: int) -> Seq<char> {
    seq![digit_char(n / 10), digit_char(n % 10)]
}

/// The text of `year`: four digits up to the year 9999, and beyond it a
/// `+` and all the digits of the year.
pub open spec fn year_text(year: int) -> Seq<char> {
    if year < 10000 {
        seq![
            digit_char(year / 1000),
            digit_char(year / 100 % 10),
            digit_char(year / 10 % 10),
            digit_char(year % 10),
        ]
    } else {
        seq!['+'] + digits(year as nat)
    }
}

/// The date and the time of day of the instant `timestamp` seconds after
/// the Unix epoch, in the form `YYYY-MM-DD HH:MM:SS`.
pub open spec fn date_time_text(timestamp: int) -> Seq<char> {
    let days = timestamp / 86400;
    let second = timestamp % 86400;
    year_text(year_of(days)) + seq!['-'] + two_digits(month_of(days)) + seq!['-'] + two_digits(
        day_of_month(days),
    ) + seq![' '] + two_digits(second / 3600) + seq![':'] + two_digits(second % 3600 / 60)
        + seq![':'] + two_digits(second % 60)
}

proof fn lemma_digits_are_digits(n: nat)
    ensures
        digits_between(digits(n), 0, digits(n).len() as int),
        n >= 10000 ==> digits(n).len() >= 5,
    decreases n,
{
    if n >= 10 {
        lemma_digits_are_digits(n / 10);
        if n >= 10000 && n / 10 < 10000 {
            reveal_with_fuel(digits, 5);
        }
    }
}

/// The text of an instant at or after the epoch has the form
/// `YYYY-MM-DD HH:MM:SS`. Up to the year 9999 it is 19 characters long. The
/// month it shows lies between 1 and 12, the day between 1 and the length of
/// that month, the hour below 24, the minute and the second below 60.
pub proof fn lemma_date_time_text_has_form(timestamp: int)
    requires
        0 <= timestamp,
    ensures
        is_date_time(date_time_text(timestamp)),
        year_of(timestamp / 86400) < 10000 ==> date_time_text(timestamp).len() == 19,
        1 <= month_of(timestamp / 86400) <= 12,
        1 <= day_of_month(timestamp / 86400) <= days_in_month(
            year_of(timestamp / 86400),
            month_of(timestamp / 86400),
        ),
        0 <= timestamp % 86400 / 3600 < 24,
        0 <= timestamp % 86400 % 3600 / 60 < 60,
        0 <= timestamp % 86400 % 60 < 60,
{
    let days = timestamp / 86400;
    let second = timestamp % 86400;
    lemma_date_of_day(days);
    lemma_year_of(days);
    let year = year_text(year_of(days));
    let tail = seq!['-'] + two_digits(month_of(days)) + seq!['-'] + two_digits(
        day_of_month(days),
    ) + seq![' '] + two_digits(second / 3600) + seq![':'] + two_digits(second % 3600 / 60)
        + seq![':'] + two_digits(second % 60);
    let text = date_time_text(timestamp);
    assert(text =~= year + tail);
    assert(tail.len() == 15);
    if year_of(days) >= 10000 {
        lemma_digits_are_digits(year_of(days) as nat);
        assert forall|i: int| 1 <= i < year.len() implies is_digit(#[trigger] text[i]) by {
            assert(text[i] == digits(year_of(days) as nat)[i - 1]);
        }
    }
    let y = text.len() - 15;
    assert(y == year.len());
    assert forall|i: int| 0 <= i < 15 implies text[y + i] == tail[i] by {}
    assert(digits_between(text, y + 1, y + 3)) by {
        assert(text[y + 1] == tail[1] && text[y + 2] == tail[2]);
    }
    assert(digits_between(text, y + 4, y + 6)) by {
        assert(text[y + 4] == tail[4] && text[y + 5] == tail[5]);
    }
    assert(digits_between(text, y + 7, y + 9)) by {
        assert(text[y + 7] == tail[7] && text[y + 8] == tail[8]);
    }
    assert(digits_between(text, y + 10, y + 12)) by {
        assert(text[y + 10] == tail[10] && text[y + 11] == tail[11]);
    }
    assert(digits_between(text, y + 13, y + 15)) by {
        assert(text[y + 13] == tail[13] && text[y + 14] == tail[14]);
    }
    assert(text[y] == tail[0] && text[y + 3] == tail[3] && text[y + 6] == tail[6] && text[y + 9]
        == tail[9] && text[y + 12] == tail[12]);
}

fn push_two_digits(out: &mut Vec<char>, n: u64)
    requires
        n < 100,
    ensures
        final(out)@ == old(out)@ + two_digits(n as int),
{
    out.push(digit(n / 10));
    out.push(digit(n % 10));
    proof {
        assert(out@ =~= old(out)@ + two_digits(n as int));
    }
}

fn push_year(out: &mut Vec<char>, year: u64)
    ensures
        final(out)@ == old(out)@ + year_text(year as int),
{
    if year < 10000 {
        out.push(digit(year / 1000));
        out.push(digit(year / 100 % 10));
        out.push(digit(year / 10 % 10));
        out.push(digit(year % 10));
        proof {
            assert(out@ =~= old(out)@ + year_text(year as int));
        }
    } else {
        out.push('+');
        append_chars(out, decimal_digits(year).as_slice());
        proof {
            assert(out@ =~= old(out)@ + year_text(year as int));
        }
    }
}

/// The date and the time of day of the instant `timestamp` seconds after
/// the Unix epoch.
pub fn date_time(timestamp: u64) -> (text: Vec<char>)
    ensures
        text@ == date_time_text(timestamp as int),
{
    let date = civil_date(timestamp / 86400);
    let second = timestamp % 86400;
    proof {
        lemma_date_of_day(timestamp as int / 86400);
    }
    let mut text: Vec<char> = Vec::new();
    push_year(&mut text, date.year);
    text.push('-');
    push_two_digits(&mut text, date.month);
    text.push('-');
    push_two_digits(&mut text, date.day);
    text.push(' ');
    push_two_digits(&mut text, second / 3600);
    text.push(':');
    push_two_digits(&mut text, second % 3600 / 60);
    text.push(':');
    push_two_digits(&mut text, second % 60);
    proof {
        assert(text@ =~= date_time_text(timestamp as int));
    }
    text
}

} // verus!
