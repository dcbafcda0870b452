use chrono::Datelike;
use goupi::calendar::{civil_date, date_time};
use goupi::clock::has_date_time_form;

fn date(days: u64) -> (u64, u64, u64) {
    let d = civil_date(days);
    (d.year, d.month, d.day)
}

#[test]
fn day_zero_is_the_first_of_january_1970() {
    assert_eq!(date(0), (1970, 1, 1));
}

#[test]
fn months_have_their_lengths() {
    assert_eq!(date(30), (1970, 1, 31));
    assert_eq!(date(31), (1970, 2, 1));
    assert_eq!(date(58), (1970, 2, 28));
    assert_eq!(date(59), (1970, 3, 1));
    assert_eq!(date(119), (1970, 4, 30));
    assert_eq!(date(120), (1970, 5, 1));
    assert_eq!(date(333), (1970, 11, 30));
    assert_eq!(date(334), (1970, 12, 1));
    assert_eq!(date(364), (1970, 12, 31));
    assert_eq!(date(365), (1971, 1, 1));
}

#[test]
fn leap_years_have_a_29th_of_february() {
    assert_eq!(date(789), (1972, 2, 29));
    assert_eq!(date(790), (1972, 3, 1));
    assert_eq!(date(1095), (1972, 12, 31));
    assert_eq!(date(1096), (1973, 1, 1));
    assert_eq!(date(11016), (2000, 2, 29));
    assert_eq!(date(11322), (2000, 12, 31));
}

#[test]
fn centuries_are_leap_years_only_every_400_years() {
    assert_eq!(date(47540), (2100, 2, 28));
    assert_eq!(date(47541), (2100, 3, 1));
    assert_eq!(date(157113), (2400, 2, 29));
    assert_eq!(date(157114), (2400, 3, 1));
}

#[test]
fn largest_day_number_has_a_date() {
    assert_eq!(date(u64::MAX), (50505469855535079, 2, 21));
}

#[test]
fn civil_date_agrees_with_the_calendar_of_chrono() {
    let first = match chrono::NaiveDate::from_ymd_opt(1970, 1, 1) {
        Some(d) => d,
        None => panic!("the calendar lacks its epoch"),
    };
    let mut expected = first;
    for days in 0..300_000u64 {
        assert_eq!(
            date(days),
            (expected.year() as u64, expected.month() as u64, expected.day() as u64)
        );
        expected = match expected.succ_opt() {
            Some(d) => d,
            None => panic!("the calendar ended"),
        };
    }
}

#[test]
fn date_time_gives_the_characters_of_the_text() {
    let text: String = date_time(1_700_000_000).into_iter().collect();
    assert_eq!(text, "2023-11-14 22:13:20");
}

#[test]
fn every_date_time_has_the_form() {
    for timestamp in [0, 1, 951782400, 253402300799, 253402300800, u64::MAX] {
        assert!(has_date_time_form(&date_time(timestamp)));
    }
}
