use feedhub::feed::ParsedItem;
use feedhub::instant::Instant;
use feedhub::store::{insert_feed, AddOutcome, EntryQuery, FetchState, InsertFeedError, Store, StoreError};

fn item(guid: &str, title: &str, secs: Option<i64>) -> ParsedItem {
    ParsedItem {
        guid: guid.to_string(),
        title: title.to_string(),
        link: Some(format!("http://e/{guid}")),
        summary: Some("s".into()),
        published_at: secs.map(|s| Instant { secs: s, nanos: 0 }),
    }
}

fn rfc3339(secs: i64) -> String {
    chrono::DateTime::from_timestamp(secs, 0).unwrap().to_rfc3339()
}

#[test]
fn add_and_duplicate_and_invalid() {
    let mut s = Store::open_in_memory();
    let f = s.add_feed("http://example.com/feed").unwrap();
    assert_eq!(f.entry_count, 0);
    assert!(f.title.is_none());
    assert!(matches!(s.add_feed("http://example.com/feed"), Err(StoreError::Duplicate)));
    assert!(matches!(s.add_feed("ftp://x"), Err(StoreError::InvalidUrl)));
    assert!(matches!(s.add_feed("notaurl"), Err(StoreError::InvalidUrl)));
}

#[test]
fn dedupe_updates_in_place() {
    let mut s = Store::open_in_memory();
    let f = s.add_feed("http://example.com/feed").unwrap();
    assert!(s.upsert_entry(f.id, &item("g1", "First", Some(100)), "T0").unwrap());
    assert!(!s.upsert_entry(f.id, &item("g1", "Updated", Some(200)), "T1").unwrap());
    let (total, items) = s.query_entries(&EntryQuery::new()).unwrap();
    assert_eq!(total, 1);
    assert_eq!(items[0].title, "Updated");
    assert_eq!(items[0].fetched_at, "T0");
}

#[test]
fn store_delete_cascades_entries() {
    let mut s = Store::open_in_memory();
    let f = s.add_feed("http://example.com/feed").unwrap();
    s.upsert_entry(f.id, &item("g1", "x", Some(1)), "T0").unwrap();
    assert!(s.delete_feed(f.id));
    let (total, _) = s.query_entries(&EntryQuery::new()).unwrap();
    assert_eq!(total, 0);
}

#[test]
fn ordering_desc_nulls_last_tie_by_id() {
    let mut s = Store::open_in_memory();
    let f = s.add_feed("http://example.com/feed").unwrap();
    s.upsert_entry(f.id, &item("a", "a", Some(300)), "T").unwrap();
    s.upsert_entry(f.id, &item("b", "b", None), "T").unwrap();
    s.upsert_entry(f.id, &item("c", "c", Some(300)), "T").unwrap();
    s.upsert_entry(f.id, &item("d", "d", Some(500)), "T").unwrap();
    let (_total, items) = s.query_entries(&EntryQuery::new()).unwrap();
    let guids: Vec<&str> = items.iter().map(|e| e.guid.as_str()).collect();
    assert_eq!(guids, vec!["d", "a", "c", "b"]);
}

#[test]
fn window_half_open_and_excludes_null() {
    let mut s = Store::open_in_memory();
    let f = s.add_feed("http://example.com/feed").unwrap();
    s.upsert_entry(f.id, &item("p100", "x", Some(100)), "T").unwrap();
    s.upsert_entry(f.id, &item("p200", "x", Some(200)), "T").unwrap();
    s.upsert_entry(f.id, &item("p300", "x", Some(300)), "T").unwrap();
    s.upsert_entry(f.id, &item("pnull", "x", None), "T").unwrap();
    let mut q = EntryQuery::new();
    q.since = Some(rfc3339(200));
    q.until = Some(rfc3339(300));
    let (total, items) = s.query_entries(&q).unwrap();
    assert_eq!(total, 1);
    assert_eq!(items[0].guid, "p200");
}

#[test]
fn search_and_pagination() {
    let mut s = Store::open_in_memory();
    let f = s.add_feed("http://example.com/feed").unwrap();
    s.upsert_entry(f.id, &item("g1", "Rust news", Some(10)), "T").unwrap();
    s.upsert_entry(f.id, &item("g2", "rust weekly", Some(20)), "T").unwrap();
    s.upsert_entry(f.id, &item("g3", "Cooking", Some(30)), "T").unwrap();
    let mut q = EntryQuery::new();
    q.q = Some("RUST".into());
    let (total, items) = s.query_entries(&q).unwrap();
    assert_eq!(total, 2);
    assert_eq!(items.len(), 2);

    let mut q2 = EntryQuery::new();
    q2.limit = 1;
    q2.offset = 1;
    let (total2, items2) = s.query_entries(&q2).unwrap();
    assert_eq!(total2, 3);
    assert_eq!(items2.len(), 1);
}

#[test]
fn register_reports_a_duplicate_as_an_outcome() {
    let mut s = Store::open_in_memory();
    let first = s.register("http://x/f").unwrap();
    let id = match first {
        AddOutcome::Created(f) => f.id,
        AddOutcome::Duplicate => panic!("first registration must create"),
    };
    assert!(matches!(s.register("http://x/f"), Ok(AddOutcome::Duplicate)));
    assert!(matches!(s.register("ftp://x/f"), Err(StoreError::InvalidUrl)));
    assert_eq!(s.list_feeds().len(), 1);
    assert_eq!(s.list_feeds()[0].id, id);
}

#[test]
fn insert_feed_tells_a_duplicate_from_other_refusals() {
    let mut s = Store::open_in_memory();
    let f = insert_feed(&mut s, "https://example.com/feed.xml").unwrap();
    assert_eq!(f.url, "https://example.com/feed.xml");
    assert!(matches!(insert_feed(&mut s, "https://example.com/feed.xml"), Err(InsertFeedError::Duplicate)));
    assert!(matches!(insert_feed(&mut s, "not a url"), Err(InsertFeedError::Db(StoreError::InvalidUrl))));
    let state: FetchState = s.fetch_info(f.id).unwrap();
    assert_eq!(state.url, "https://example.com/feed.xml");
    assert_eq!(state.etag, None);
}
