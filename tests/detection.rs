use feed_notify::{change_message, detect, feed_changed, is_newer, FeedSnapshot, NotifyError, SnapshotSet};

const D1: &str = "Mon, 01 Jan 2024 00:00:00 +0000";

fn snap(title: &str, link: &str, date: &str, enclosure: &str) -> FeedSnapshot {
    FeedSnapshot::new(title.to_string(), link.to_string(), date.to_string(), enclosure.to_string())
}

fn set_of(items: Vec<(&str, FeedSnapshot)>) -> SnapshotSet {
    let mut s = SnapshotSet::new();
    for (name, snapshot) in items {
        s.insert(name.to_string(), snapshot);
    }
    s
}

#[test]
fn first_run_reports_new_feed() {
    let old = SnapshotSet::new();
    let new = set_of(vec![("A", snap("T1", "L1", D1, ""))]);
    let msgs = detect(&new, &old).unwrap();
    assert_eq!(msgs.len(), 1);
    assert_eq!(msgs[0], "T1: Mon, 01 Jan 2024 00:00:00 +0000\n L1\n ");
}

#[test]
fn one_hour_later_is_a_change() {
    let old = set_of(vec![("A", snap("T0", "L0", D1, ""))]);
    let new = set_of(vec![("A", snap("T1", "L1", "Mon, 01 Jan 2024 01:00:00 +0000", "E1"))]);
    let msgs = detect(&new, &old).unwrap();
    assert_eq!(msgs, vec!["T1: Mon, 01 Jan 2024 01:00:00 +0000\n L1\n E1".to_string()]);
}

#[test]
fn one_hour_earlier_is_no_change() {
    let old = set_of(vec![("A", snap("T0", "L0", D1, ""))]);
    let new = set_of(vec![("A", snap("T1", "L1", "Sun, 31 Dec 2023 23:00:00 +0000", ""))]);
    assert_eq!(detect(&new, &old).unwrap().len(), 0);
}

#[test]
fn equal_dates_are_no_change() {
    let old = set_of(vec![("A", snap("T0", "L0", D1, ""))]);
    let new = set_of(vec![("A", snap("T1", "L1", D1, "E"))]);
    assert_eq!(detect(&new, &old).unwrap().len(), 0);
}

#[test]
fn same_instant_in_another_offset_is_no_change() {
    let old = set_of(vec![("A", snap("T0", "L0", D1, ""))]);
    let new = set_of(vec![("A", snap("T1", "L1", "Mon, 01 Jan 2024 01:00:00 +0100", ""))]);
    assert_eq!(detect(&new, &old).unwrap().len(), 0);
}

#[test]
fn one_second_later_is_a_change() {
    let old = set_of(vec![("A", snap("T0", "L0", D1, ""))]);
    let new = set_of(vec![("A", snap("T1", "L1", "Mon, 01 Jan 2024 00:00:01 +0000", ""))]);
    assert_eq!(detect(&new, &old).unwrap().len(), 1);
}

#[test]
fn detect_against_itself_is_empty() {
    let s = set_of(vec![
        ("A", snap("T1", "L1", D1, "E1")),
        ("B", snap("T2", "L2", "Tue, 02 Jan 2024 10:30:00 +0900", "")),
    ]);
    assert_eq!(detect(&s, &s).unwrap().len(), 0);
}

#[test]
fn first_seen_feed_reported_whatever_its_date() {
    let old = set_of(vec![("A", snap("T0", "L0", D1, ""))]);
    let new = set_of(vec![
        ("A", snap("T0", "L0", D1, "")),
        ("B", snap("Old", "LB", "Thu, 01 Jan 1970 00:00:00 +0000", "")),
    ]);
    let msgs = detect(&new, &old).unwrap();
    assert_eq!(msgs, vec!["Old: Thu, 01 Jan 1970 00:00:00 +0000\n LB\n ".to_string()]);
}

#[test]
fn feeds_only_in_old_are_ignored() {
    let old = set_of(vec![("A", snap("T0", "L0", D1, "")), ("Gone", snap("G", "LG", D1, ""))]);
    let new = set_of(vec![("A", snap("T0", "L0", D1, ""))]);
    assert_eq!(detect(&new, &old).unwrap().len(), 0);
}

#[test]
fn messages_follow_entry_order() {
    let old = SnapshotSet::new();
    let new = set_of(vec![("A", snap("a", "la", D1, "")), ("B", snap("b", "lb", D1, ""))]);
    let msgs = detect(&new, &old).unwrap();
    assert_eq!(msgs.len(), 2);
    assert!(msgs[0].starts_with("a: "));
    assert!(msgs[1].starts_with("b: "));
}

#[test]
fn unreadable_new_date_is_an_error() {
    let old = set_of(vec![("A", snap("T0", "L0", D1, ""))]);
    let new = set_of(vec![("A", snap("T1", "L1", "yesterday", ""))]);
    assert_eq!(detect(&new, &old), Err(NotifyError::DateParse));
}

#[test]
fn unreadable_old_date_is_an_error() {
    let old = set_of(vec![("A", snap("T0", "L0", "2024-01-01", ""))]);
    let new = set_of(vec![("A", snap("T1", "L1", D1, ""))]);
    assert_eq!(detect(&new, &old), Err(NotifyError::DateParse));
}

#[test]
fn unreadable_date_of_a_new_feed_is_not_read() {
    let old = SnapshotSet::new();
    let new = set_of(vec![("A", snap("T1", "L1", "not a date", ""))]);
    assert_eq!(detect(&new, &old).unwrap().len(), 1);
}

#[test]
fn is_newer_decides_strictly() {
    assert_eq!(is_newer(Some(1_000), Some(999)), Ok(true));
    assert_eq!(is_newer(Some(1_000), Some(1_000)), Ok(false));
    assert_eq!(is_newer(Some(-5), Some(3)), Ok(false));
    assert_eq!(is_newer(None, Some(3)), Err(NotifyError::DateParse));
    assert_eq!(is_newer(Some(3), None), Err(NotifyError::DateParse));
}

#[test]
fn feed_changed_reads_the_stored_date() {
    let old = set_of(vec![("A", snap("T0", "L0", D1, ""))]);
    let later = snap("T1", "L1", "Mon, 01 Jan 2024 00:00:00 -0100", "");
    assert_eq!(feed_changed(&"A".to_string(), &later, &old), Ok(true));
    assert_eq!(feed_changed(&"B".to_string(), &later, &old), Ok(true));
    let same = snap("T1", "L1", D1, "");
    assert_eq!(feed_changed(&"A".to_string(), &same, &old), Ok(false));
}

#[test]
fn change_message_layout() {
    let s = snap("Title", "https://example.org/1", D1, "https://example.org/1.mp3");
    assert_eq!(
        change_message(&s),
        "Title: Mon, 01 Jan 2024 00:00:00 +0000\n https://example.org/1\n https://example.org/1.mp3"
    );
}
