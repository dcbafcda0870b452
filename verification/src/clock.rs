//! The wall clock and the local calendar.

use crate::text::{decimal, decimal_text, from_chars, to_chars};
use chrono::TimeZone;
use vstd::prelude::*;

verus! {

/// `chrono::Local::now` and `DateTime::timestamp`: the current time in whole
/// seconds since the Unix epoch. Nothing is known of the value. The call
/// cannot return while the system clock stands before the epoch.
#[verifier::external_body]
pub(crate) fn now_seconds() -> i64 {
    chrono::Local::now().timestamp()
}

/// `TimeZone::timestamp_opt` on `chrono::Local`, then `DateTime::format` with
/// `%Y-%m-%d %H:%M:%S`: the local date and time of the instant `secs` seconds
/// after the Unix epoch, or nothing where the calendar cannot hold that
/// instant. The text depends on the machine's time zone, and nothing is
/// claimed of it: `shown_time` tests its form.
#[verifier::external_body]
pub(crate) fn local_time_text(secs: i64) -> Option<String> {
    chrono::Local.timestamp_opt(secs, 0).single().map(|t| t.format("%Y-%m-%d %H:%M:%S").to_string())
}

/// The text shown for the instant `secs` seconds after the Unix epoch: its
/// local date and time in the form `YYYY-MM-DD HH:MM:SS`, or the bare number
/// of seconds where the calendar gives no text of that form.
pub(crate) fn display_time(secs: i64) -> (text: String)
    ensures
        is_time_text(text@, secs as int),
{
    shown_time(secs, local_time_text(secs))
}

/// `c` is one of the digits `0` to `9`.
pub open spec fn is_digit(c: char) -> bool {
    '0' <= c <= '9'
}

/// Every character of `s` from index `from` up to, not including, `to` is a
/// digit.
pub open spec fn digits_between(s: Seq<char>, from: int, to: int) -> bool {
    forall|i: int| from <= i < to ==> is_digit(#[trigger] s[i])
}

/// `s` has the form `YYYY-MM-DD HH:MM:SS`: a year, then month, day, hour,
/// minute and second in two digits each, between the marks shown. The year
/// is four digits, or a sign and four digits or more.
pub open spec fn is_date_time(s: Seq<char>) -> bool {
    let y = s.len() - 15;
    &&& y >= 4
    &&& (y == 4 && digits_between(s, 0, 4)) || (y >= 5 && (s[0] == '+' || s[0] == '-')
        && digits_between(s, 1, y))
    &&& s[y] == '-' && digits_between(s, y + 1, y + 3)
    &&& s[y + 3] == '-' && digits_between(s, y + 4, y + 6)
    &&& s[y + 6] == ' ' && digits_between(s, y + 7, y + 9)
    &&& s[y + 9] == ':' && digits_between(s, y + 10, y + 12)
    &&& s[y + 12] == ':' && digits_between(s, y + 13, y + 15)
}

/// `text` is what is shown for the instant `secs` seconds after the Unix
/// epoch: a date and time, or the bare number of seconds.
pub open spec fn is_time_text(text: Seq<char>, secs: int) -> bool {
    is_date_time(text) || text == decimal(secs)
}

/// What is shown for the instant `secs` seconds after the Unix epoch, where
/// `local` is what the calendar gave for it: that text where it has the form
/// of a date and time, else the bare number of seconds.
pub open spec fn display_text(secs: int, local: Option<Seq<char>>) -> Seq<char> {
    match local {
        Some(text) => if is_date_time(text) {
            text
        } else {
            decimal(secs)
        },
        None => decimal(secs),
    }
}

fn all_digits(s: &[char], from: usize, to: usize) -> (r: bool)
    requires
        from <= to <= s@.len(),
    ensures
        r == digits_between(s@, from as int, to as int),
{
    let mut i: usize = from;
    while i < to
        invariant
            from <= i <= to <= s@.len(),
            digits_between(s@, from as int, i as int),
        decreases to - i,
    {
        if !('0' <= s[i] && s[i] <= '9') {
            return false;
        }
        i += 1;
    }
    true
}

/// Whether `s` has the form `YYYY-MM-DD HH:MM:SS`.
pub fn has_date_time_form(s: &[char]) -> (r: bool)
    ensures
        r == is_date_time(s@),
{
    if s.len() < 19 {
        return false;
    }
    let y: usize = s.len() - 15;
    let year = if y == 4 {
        all_digits(s, 0, 4)
    } else {
        (s[0] == '+' || s[0] == '-') && all_digits(s, 1, y)
    };
    year && s[y] == '-' && all_digits(s, y + 1, y + 3) && s[y + 3] == '-' && all_digits(
        s,
        y + 4,
        y + 6,
    ) && s[y + 6] == ' ' && all_digits(s, y + 7, y + 9) && s[y + 9] == ':' && all_digits(
        s,
        y + 10,
        y + 12,
    ) && s[y + 12] == ':' && all_digits(s, y + 13, y + 15)
}

/// What is shown for the instant `secs` seconds after the Unix epoch, where
/// `local` is what the calendar gave for it.
pub fn shown_time(secs: i64, local: Option<String>) -> (text: String)
    ensures
        text@ == display_text(
            secs as int,
            match local {
                Some(t) => Some(t@),
                None => None,
            },
        ),
{
    match local {
        Some(t) => {
            if has_date_time_form(to_chars(t.as_str()).as_slice()) {
                return t;
            }
        },
        None => {},
    }
    let digits = decimal_text(secs);
    from_chars(digits.as_slice())
}

} // verus!
