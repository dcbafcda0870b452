use goupi::clock::{has_date_time_form, shown_time};
use goupi::post::{PostStep, Publishing};

fn has_form(s: &str) -> bool {
    let chars: Vec<char> = s.chars().collect();
    has_date_time_form(&chars)
}

#[test]
fn date_and_time_with_four_digit_year_has_the_form() {
    assert!(has_form("2024-03-05 10:20:30"));
    assert!(has_form("0000-00-00 00:00:00"));
    assert!(has_form("9999-12-31 23:59:60"));
}

#[test]
fn date_and_time_with_signed_year_has_the_form() {
    assert!(has_form("+10000-01-01 00:00:00"));
    assert!(has_form("-0001-12-31 23:59:59"));
    assert!(has_form("-262143-01-01 00:00:00"));
}

#[test]
fn other_texts_do_not_have_the_form() {
    assert!(!has_form(""));
    assert!(!has_form("2024-03-05"));
    assert!(!has_form("2024-03-05T10:20:30"));
    assert!(!has_form("2024/03/05 10:20:30"));
    assert!(!has_form("2024-03-05 10.20.30"));
    assert!(!has_form("2024-3-05  10:20:30"));
    assert!(!has_form("202a-03-05 10:20:30"));
    assert!(!has_form("2024-03-05 10:20:3x"));
    assert!(!has_form("12024-03-05 10:20:30"));
    assert!(!has_form("+024-03-05 10:20:30"));
    assert!(!has_form(" 2024-03-05 10:20:30"));
    assert!(!has_form("2024-03-05 10:20:30 "));
    assert!(!has_form("２０２４-03-05 10:20:30"));
    assert!(!has_form("Tue, 5 Mar 2024 10:20"));
}

#[test]
fn calendar_text_is_shown_as_it_is() {
    assert_eq!(shown_time(5, Some("2024-03-05 10:20:30".to_string())), "2024-03-05 10:20:30");
    assert_eq!(shown_time(5, Some("+10000-01-01 00:00:00".to_string())), "+10000-01-01 00:00:00");
}

#[test]
fn seconds_are_shown_where_the_calendar_gives_nothing() {
    assert_eq!(shown_time(5, None), "5");
    assert_eq!(shown_time(-1_700_000_000, None), "-1700000000");
    assert_eq!(shown_time(i64::MAX, None), "9223372036854775807");
}

#[test]
fn seconds_are_shown_where_the_text_has_another_form() {
    assert_eq!(shown_time(42, Some("soon".to_string())), "42");
    assert_eq!(shown_time(42, Some(String::new())), "42");
    assert_eq!(shown_time(0, Some("2024-03-05T10:20:30".to_string())), "0");
}

#[test]
fn record_of_a_built_post_shows_a_date_and_time() {
    let stage = Publishing {
        name: "n".to_string(),
        title: "t".to_string(),
        description: "d".to_string(),
    };
    match stage.published(Ok(())) {
        PostStep::Done(Ok(record)) => assert!(has_form(&record.timestamp_display)),
        _ => panic!("a record was expected"),
    }
}
