use feedhub::refresh::{tree_refresh, FetchOutcome};
use feedhub::store::{EntryQuery, Store};

const ATOM: &str = r#"<feed xmlns="http://www.w3.org/2005/Atom"><title>Tree</title>
<entry><id>urn:1</id><title>One</title><link href="http://e/1"/><updated>2021-01-01T00:00:00Z</updated></entry>
<entry><id>urn:2</id><title>Two</title></entry>
</feed>"#;

fn fetched(s: &str) -> FetchOutcome {
    FetchOutcome::Fetched { body: s.as_bytes().to_vec(), etag: None, last_modified: Some("L".into()) }
}

#[test]
fn tree_refresh_stores_entries_and_title() {
    let mut s = Store::open_in_memory();
    let f = s.add_feed("https://example.com/a.atom").unwrap();
    let r = tree_refresh(&mut s, f.id, Ok(fetched(ATOM)), "2024-01-01T00:00:00Z").unwrap();
    assert_eq!(r.status, "ok");
    assert_eq!(r.new_entries, 2);
    assert_eq!(r.not_modified, None);
    let again = tree_refresh(&mut s, f.id, Ok(fetched(ATOM)), "2024-01-02T00:00:00Z").unwrap();
    assert_eq!(again.new_entries, 0);
    let feed = s.get_feed(f.id).unwrap();
    assert_eq!(feed.title.as_deref(), Some("Tree"));
    assert_eq!(feed.entry_count, 2);
    let (_, items) = s.query_entries(&EntryQuery::new()).unwrap();
    assert_eq!(items[0].title, "One");
    assert_eq!(items[0].published_at.as_deref(), Some("2021-01-01T00:00:00Z"));
}

#[test]
fn tree_refresh_failures_keep_the_fetch_time() {
    let mut s = Store::open_in_memory();
    let f = s.add_feed("https://example.com/a.atom").unwrap();
    tree_refresh(&mut s, f.id, Ok(FetchOutcome::NotModified), "2024-01-01T00:00:00Z").unwrap();
    let r = tree_refresh(&mut s, f.id, Err("HTTP 500".into()), "2024-01-02T00:00:00Z").unwrap();
    assert_eq!(r.status, "error");
    assert_eq!(r.error.as_deref(), Some("HTTP 500"));
    let feed = s.get_feed(f.id).unwrap();
    assert_eq!(feed.last_error.as_deref(), Some("HTTP 500"));
    assert_eq!(feed.last_fetched_at.as_deref(), Some("2024-01-01T00:00:00Z"));

    let r = tree_refresh(&mut s, f.id, Ok(fetched("<html/>")), "2024-01-03T00:00:00Z").unwrap();
    assert_eq!(r.error.as_deref(), Some("unrecognized feed format"));
}

#[test]
fn tree_refresh_of_a_missing_feed_or_unreadable_date_is_none() {
    let mut s = Store::open_in_memory();
    assert!(tree_refresh(&mut s, 9, Ok(FetchOutcome::NotModified), "T").is_none());
    let f = s.add_feed("https://example.com/r.rss").unwrap();
    let bad = "<rss><channel><item><guid>g</guid><pubDate>06 \u{e9}\u{e9}x 2021 16:20 GMT</pubDate></item></channel></rss>";
    assert!(tree_refresh(&mut s, f.id, Ok(fetched(bad)), "T").is_none());
    assert_eq!(s.get_feed(f.id).unwrap().last_error, None);
}
