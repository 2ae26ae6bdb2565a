use feedhub::feed::ParsedItem;
use feedhub::instant::Instant;
use feedhub::store::{EntryQuery, Store, StoreError};

fn epoch_text(secs: i64) -> String {
    chrono::DateTime::from_timestamp(secs, 0).unwrap().format("%Y-%m-%dT%H:%M:%SZ").to_string()
}

fn entry(guid: &str, title: &str, published: Option<i64>) -> ParsedItem {
    ParsedItem {
        guid: guid.to_string(),
        title: title.to_string(),
        link: Some(format!("http://x/{guid}")),
        summary: Some("s".into()),
        published_at: published.map(|s| Instant { secs: s, nanos: 0 }),
    }
}

fn all() -> EntryQuery {
    EntryQuery { limit: 50, ..Default::default() }
}

#[test]
fn add_and_duplicate() {
    let mut s = Store::open_in_memory();
    assert!(s.add_feed("http://x/f").is_ok());
    assert!(matches!(s.add_feed("http://x/f"), Err(StoreError::Duplicate)));
}

#[test]
fn upsert_dedupes_and_updates() {
    let mut s = Store::open_in_memory();
    let f = s.add_feed("http://x/f").unwrap();
    assert!(s.upsert_entry(f.id, &entry("g1", "Old", Some(100)), &epoch_text(10)).unwrap());
    assert!(!s.upsert_entry(f.id, &entry("g1", "New", Some(200)), &epoch_text(99)).unwrap());
    assert_eq!(s.get_feed(f.id).unwrap().entry_count, 1);
    let (_total, items) = s.query_entries(&all()).unwrap();
    assert_eq!(items[0].title, "New");
    assert_eq!(items[0].fetched_at, epoch_text(10));
}

#[test]
fn ordering_nulls_last_then_id() {
    let mut s = Store::open_in_memory();
    let f = s.add_feed("http://x/f").unwrap();
    s.upsert_entry(f.id, &entry("a", "A", Some(100)), &epoch_text(1)).unwrap();
    s.upsert_entry(f.id, &entry("b", "B", None), &epoch_text(1)).unwrap();
    s.upsert_entry(f.id, &entry("c", "C", Some(300)), &epoch_text(1)).unwrap();
    s.upsert_entry(f.id, &entry("d", "D", None), &epoch_text(1)).unwrap();
    let (total, items) = s.query_entries(&all()).unwrap();
    assert_eq!(total, 4);
    let titles: Vec<&str> = items.iter().map(|i| i.title.as_str()).collect();
    assert_eq!(titles, vec!["C", "A", "B", "D"]);
}

#[test]
fn window_half_open_excludes_null() {
    let mut s = Store::open_in_memory();
    let f = s.add_feed("http://x/f").unwrap();
    s.upsert_entry(f.id, &entry("a", "A", Some(100)), &epoch_text(1)).unwrap();
    s.upsert_entry(f.id, &entry("b", "B", Some(200)), &epoch_text(1)).unwrap();
    s.upsert_entry(f.id, &entry("n", "N", None), &epoch_text(1)).unwrap();
    let (total, items) = s
        .query_entries(&EntryQuery { since: Some(epoch_text(100)), until: Some(epoch_text(200)), ..all() })
        .unwrap();
    assert_eq!(total, 1);
    assert_eq!(items[0].title, "A");
}

#[test]
fn search_case_insensitive() {
    let mut s = Store::open_in_memory();
    let f = s.add_feed("http://x/f").unwrap();
    s.upsert_entry(f.id, &entry("a", "Hello World", Some(1)), &epoch_text(1)).unwrap();
    s.upsert_entry(f.id, &entry("b", "Goodbye", Some(2)), &epoch_text(1)).unwrap();
    let (total, items) = s.query_entries(&EntryQuery { q: Some("hello".into()), ..all() }).unwrap();
    assert_eq!(total, 1);
    assert_eq!(items[0].title, "Hello World");
}
