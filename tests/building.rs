use feed_notify::{build_snapshot, latest_snapshots, snapshot_from_feed, FeedItem, NotifyError};

fn item(title: Option<&str>, link: Option<&str>, date: Option<&str>, enc: Option<&str>) -> FeedItem {
    FeedItem {
        title: title.map(|s| s.to_string()),
        link: link.map(|s| s.to_string()),
        pub_date: date.map(|s| s.to_string()),
        enclosure_url: enc.map(|s| s.to_string()),
    }
}

fn channel(items: &[(&str, &str, &str, &str)]) -> Vec<u8> {
    let mut xml = String::from(
        "<?xml version=\"1.0\"?><rss version=\"2.0\"><channel><title>c</title><link>https://c</link><description>d</description>",
    );
    for (t, l, d, e) in items {
        xml.push_str(&format!(
            "<item><title>{}</title><link>{}</link><pubDate>{}</pubDate><enclosure url=\"{}\" length=\"1\" type=\"audio/mpeg\"/></item>",
            t, l, d, e
        ));
    }
    xml.push_str("</channel></rss>");
    xml.into_bytes()
}

#[test]
fn build_takes_first_item() {
    let items = vec![
        item(Some("new"), Some("l1"), Some("d1"), Some("e1")),
        item(Some("old"), Some("l0"), Some("d0"), Some("e0")),
    ];
    let s = build_snapshot(&items).unwrap();
    assert_eq!((s.title.as_str(), s.link.as_str(), s.pub_date.as_str(), s.enclosure_url.as_str()), ("new", "l1", "d1", "e1"));
}

#[test]
fn build_without_items_fails() {
    assert_eq!(build_snapshot(&vec![]).err(), Some(NotifyError::IncompleteItem));
}

#[test]
fn build_with_missing_field_fails() {
    let missing = [
        item(None, Some("l"), Some("d"), Some("e")),
        item(Some("t"), None, Some("d"), Some("e")),
        item(Some("t"), Some("l"), None, Some("e")),
        item(Some("t"), Some("l"), Some("d"), None),
    ];
    for it in missing {
        assert_eq!(build_snapshot(&vec![it]).err(), Some(NotifyError::IncompleteItem));
    }
}

#[test]
fn build_ignores_gaps_in_later_items() {
    let items = vec![item(Some("t"), Some("l"), Some("d"), Some("e")), item(None, None, None, None)];
    assert!(build_snapshot(&items).is_ok());
}

#[test]
fn feed_document_gives_snapshot_of_first_item() {
    let bytes = channel(&[
        ("Second issue", "https://c/2", "Tue, 02 Jan 2024 00:00:00 +0000", "https://c/2.mp3"),
        ("First issue", "https://c/1", "Mon, 01 Jan 2024 00:00:00 +0000", "https://c/1.mp3"),
    ]);
    let s = snapshot_from_feed(&bytes).unwrap();
    assert_eq!(s.title, "Second issue");
    assert_eq!(s.link, "https://c/2");
    assert_eq!(s.pub_date, "Tue, 02 Jan 2024 00:00:00 +0000");
    assert_eq!(s.enclosure_url, "https://c/2.mp3");
}

#[test]
fn feed_without_items_is_incomplete() {
    assert_eq!(snapshot_from_feed(&channel(&[])).err(), Some(NotifyError::IncompleteItem));
}

#[test]
fn unreadable_document_is_a_fetch_error() {
    assert_eq!(snapshot_from_feed(b"not xml at all").err(), Some(NotifyError::Fetch));
}

#[test]
fn latest_snapshots_by_name() {
    let feeds = vec![
        ("A".to_string(), channel(&[("a1", "la", "d", "e")])),
        ("B".to_string(), channel(&[("b1", "lb", "d", "e")])),
        ("A".to_string(), channel(&[("a2", "la", "d", "e")])),
    ];
    let set = latest_snapshots(&feeds).unwrap();
    assert_eq!(set.len(), 2);
    assert_eq!(set.get(&"A".to_string()).unwrap().title, "a2");
    assert_eq!(set.get(&"B".to_string()).unwrap().title, "b1");
}

#[test]
fn latest_snapshots_stops_on_bad_feed() {
    let feeds = vec![
        ("A".to_string(), channel(&[("a1", "la", "d", "e")])),
        ("B".to_string(), b"<rss".to_vec()),
    ];
    assert_eq!(latest_snapshots(&feeds).err(), Some(NotifyError::Fetch));
}
