use goupi::staleness::{is_up_to_date, newest_modification_time, FileTree, Timestamp};

fn at(secs: i64, nanos: u32) -> Timestamp {
    Timestamp { secs, nanos }
}

fn file(secs: i64, nanos: u32) -> FileTree {
    FileTree::File(Some(at(secs, nanos)))
}

#[test]
fn epoch_is_time_zero() {
    assert_eq!(Timestamp::epoch(), at(0, 0));
}

#[test]
fn is_after_orders_by_seconds_then_nanoseconds() {
    assert!(at(2, 0).is_after(&at(1, 999_999_999)));
    assert!(at(1, 5).is_after(&at(1, 4)));
    assert!(!at(1, 4).is_after(&at(1, 4)));
    assert!(!at(1, 4).is_after(&at(1, 5)));
    assert!(at(0, 0).is_after(&at(-1, 999_999_999)));
    assert!(!at(-2, 0).is_after(&at(-1, 0)));
}

#[test]
fn missing_path_has_the_epoch() {
    assert_eq!(newest_modification_time(&FileTree::Missing), Timestamp::epoch());
}

#[test]
fn empty_directory_has_the_epoch() {
    assert_eq!(newest_modification_time(&FileTree::Directory(Vec::new())), Timestamp::epoch());
}

#[test]
fn directories_without_files_have_the_epoch() {
    let tree = FileTree::Directory(vec![
        FileTree::Directory(Vec::new()),
        FileTree::Directory(vec![FileTree::Directory(Vec::new())]),
    ]);
    assert_eq!(newest_modification_time(&tree), Timestamp::epoch());
}

#[test]
fn file_without_known_time_adds_nothing() {
    let tree = FileTree::Directory(vec![FileTree::File(None), file(5, 0)]);
    assert_eq!(newest_modification_time(&tree), at(5, 0));
    assert_eq!(newest_modification_time(&FileTree::File(None)), Timestamp::epoch());
}

#[test]
fn newest_file_wins_whatever_its_place() {
    let tree = FileTree::Directory(vec![file(100, 0), file(300, 0), file(200, 0)]);
    assert_eq!(newest_modification_time(&tree), at(300, 0));
    let tree = FileTree::Directory(vec![file(300, 0), file(100, 0)]);
    assert_eq!(newest_modification_time(&tree), at(300, 0));
}

#[test]
fn newest_file_is_found_at_any_depth() {
    let deep = FileTree::Directory(vec![FileTree::Directory(vec![FileTree::Directory(vec![
        file(10, 0),
        file(900, 7),
    ])])]);
    let tree = FileTree::Directory(vec![file(500, 0), deep, file(899, 999_999_999)]);
    assert_eq!(newest_modification_time(&tree), at(900, 7));
}

#[test]
fn nanoseconds_decide_between_files_of_one_second() {
    let tree = FileTree::Directory(vec![file(7, 1), file(7, 3), file(7, 2)]);
    assert_eq!(newest_modification_time(&tree), at(7, 3));
}

#[test]
fn times_before_the_epoch_do_not_count() {
    let tree = FileTree::Directory(vec![file(-5, 0), file(-1, 999_999_999)]);
    assert_eq!(newest_modification_time(&tree), Timestamp::epoch());
    assert_eq!(newest_modification_time(&file(-5, 0)), Timestamp::epoch());
}

#[test]
fn single_file_has_its_own_time() {
    assert_eq!(newest_modification_time(&file(42, 9)), at(42, 9));
}

#[test]
fn output_strictly_newer_is_up_to_date() {
    assert!(is_up_to_date(at(100, 0), at(101, 0)));
    assert!(is_up_to_date(at(100, 0), at(100, 1)));
}

#[test]
fn equal_times_are_stale() {
    assert!(!is_up_to_date(at(100, 5), at(100, 5)));
    assert!(!is_up_to_date(Timestamp::epoch(), Timestamp::epoch()));
}

#[test]
fn older_output_is_stale() {
    assert!(!is_up_to_date(at(100, 5), at(100, 4)));
    assert!(!is_up_to_date(at(100, 0), at(99, 999_999_999)));
}
