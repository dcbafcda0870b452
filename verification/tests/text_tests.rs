use goupi::text::{decimal_text, find, from_chars, occurs_at, replace, slice_range, to_chars};

fn chars(s: &str) -> Vec<char> {
    s.chars().collect()
}

#[test]
fn to_chars_and_back_keep_the_text() {
    let v = to_chars("héllo <b>");
    assert_eq!(v, chars("héllo <b>"));
    assert_eq!(from_chars(&v), "héllo <b>");
    assert_eq!(from_chars(&[]), "");
}

#[test]
fn find_gives_first_occurrence_at_or_after_start() {
    let s = chars("abcabc");
    assert_eq!(find(&s, &chars("bc"), 0), Some(1));
    assert_eq!(find(&s, &chars("bc"), 1), Some(1));
    assert_eq!(find(&s, &chars("bc"), 2), Some(4));
    assert_eq!(find(&s, &chars("bc"), 5), None);
    assert_eq!(find(&s, &chars("abcabcd"), 0), None);
    assert_eq!(find(&s, &chars("x"), 0), None);
    assert_eq!(find(&s, &chars("a"), 100), None);
}

#[test]
fn occurs_at_checks_bounds() {
    let s = chars("abc");
    assert!(occurs_at(&s, &chars("bc"), 1));
    assert!(!occurs_at(&s, &chars("bc"), 2));
    assert!(!occurs_at(&s, &chars("bc"), 3));
    assert!(occurs_at(&s, &chars(""), 3));
    assert!(!occurs_at(&s, &chars(""), 4));
}

#[test]
fn replace_takes_occurrences_left_to_right_without_overlap() {
    assert_eq!(replace(&chars("aaaa"), &chars("aa"), &chars("b")), chars("bb"));
    assert_eq!(replace(&chars("aaa"), &chars("aa"), &chars("b")), chars("ba"));
    assert_eq!(replace(&chars("x-y-z"), &chars("-"), &chars("--")), chars("x--y--z"));
    assert_eq!(replace(&chars("abc"), &chars("abc"), &chars("")), chars(""));
    assert_eq!(replace(&chars("abc"), &chars("d"), &chars("e")), chars("abc"));
}

#[test]
fn replace_does_not_look_into_what_it_put_in() {
    assert_eq!(replace(&chars("ab"), &chars("a"), &chars("aa")), chars("aab"));
}

#[test]
fn replace_with_empty_pattern_changes_nothing() {
    assert_eq!(replace(&chars("abc"), &chars(""), &chars("x")), chars("abc"));
}

#[test]
fn slice_range_copies_the_range() {
    let s = chars("<GoupiTitle/>");
    assert_eq!(slice_range(&s, 6, s.len() - 2), chars("Title"));
    assert_eq!(slice_range(&s, 3, 3), chars(""));
}

#[test]
fn decimal_text_of_integers() {
    assert_eq!(decimal_text(0), chars("0"));
    assert_eq!(decimal_text(7), chars("7"));
    assert_eq!(decimal_text(10), chars("10"));
    assert_eq!(decimal_text(1234567890), chars("1234567890"));
    assert_eq!(decimal_text(-42), chars("-42"));
    assert_eq!(decimal_text(i64::MAX), chars("9223372036854775807"));
    assert_eq!(decimal_text(i64::MIN), chars("-9223372036854775808"));
}
