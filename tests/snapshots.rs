use feed_notify::{FeedSnapshot, SnapshotSet, StoredItem};

fn snap(title: &str, date: &str, enclosure: &str) -> FeedSnapshot {
    FeedSnapshot::new(title.to_string(), format!("link-{}", title), date.to_string(), enclosure.to_string())
}

#[test]
fn empty_set_has_nothing() {
    let s = SnapshotSet::new();
    assert_eq!(s.len(), 0);
    assert!(s.get(&"A".to_string()).is_none());
}

#[test]
fn insert_replaces_by_name() {
    let mut s = SnapshotSet::new();
    s.insert("A".to_string(), snap("one", "d1", ""));
    s.insert("B".to_string(), snap("two", "d2", ""));
    s.insert("A".to_string(), snap("three", "d3", ""));
    assert_eq!(s.len(), 2);
    assert_eq!(s.get(&"A".to_string()).unwrap().title, "three");
    assert_eq!(s.get(&"B".to_string()).unwrap().title, "two");
}

#[test]
fn from_entries_last_write_wins() {
    let s = SnapshotSet::from_entries(vec![
        ("A".to_string(), snap("first", "d", "")),
        ("A".to_string(), snap("second", "d", "")),
    ]);
    assert_eq!(s.len(), 1);
    assert_eq!(s.get(&"A".to_string()).unwrap().title, "second");
}

#[test]
fn stored_form_leaves_out_enclosure() {
    let mut s = SnapshotSet::new();
    s.insert("A".to_string(), snap("t", "Mon, 01 Jan 2024 00:00:00 +0000", "https://e/1"));
    let stored = s.to_stored();
    assert_eq!(stored.len(), 1);
    assert_eq!(stored[0].0, "A");
    assert_eq!(stored[0].1.title, "t");
    assert_eq!(stored[0].1.link, "link-t");
    assert_eq!(stored[0].1.pub_date, "Mon, 01 Jan 2024 00:00:00 +0000");
}

#[test]
fn stored_round_trip_keeps_everything_but_enclosure() {
    let mut s = SnapshotSet::new();
    s.insert("A".to_string(), snap("a", "d1", ""));
    s.insert("B".to_string(), snap("b", "d2", "https://e/b"));
    let back = SnapshotSet::from_stored(s.to_stored());
    assert_eq!(back.len(), 2);
    let a = back.get(&"A".to_string()).unwrap();
    assert_eq!((a.title.as_str(), a.link.as_str(), a.pub_date.as_str(), a.enclosure_url.as_str()), ("a", "link-a", "d1", ""));
    let b = back.get(&"B".to_string()).unwrap();
    assert_eq!((b.title.as_str(), b.pub_date.as_str(), b.enclosure_url.as_str()), ("b", "d2", ""));
}

#[test]
fn from_stored_builds_each_snapshot() {
    let s = SnapshotSet::from_stored(vec![(
        "X".to_string(),
        StoredItem { title: "t".to_string(), link: "l".to_string(), pub_date: "p".to_string() },
    )]);
    let x = s.get(&"X".to_string()).unwrap();
    assert_eq!((x.title.as_str(), x.link.as_str(), x.pub_date.as_str(), x.enclosure_url.as_str()), ("t", "l", "p", ""));
}
