use feedhub::fetch::{settle_fetch, FetchReply};
use feedhub::store::{EntryQuery, Store};

const RSS: &str = r#"<rss version="2.0"><channel><title>Chan</title>
<item><guid>a</guid><title>A</title></item>
<item><guid>b</guid><title>B</title></item>
</channel></rss>"#;

fn body(s: &str) -> FetchReply {
    FetchReply::Body { body: s.as_bytes().to_vec(), etag: Some("\"v1\"".into()), last_modified: Some("Mon, 01 Jan 2024 00:00:00 GMT".into()) }
}

fn store_with_feed() -> (Store, i64) {
    let mut s = Store::open_in_memory();
    let f = s.add_feed("https://example.com/f.rss").unwrap();
    (s, f.id)
}

#[test]
fn settle_missing_feed() {
    let mut s = Store::open_in_memory();
    let r = settle_fetch(&mut s, 3, FetchReply::NotModified, "T");
    assert_eq!(r.status, "error");
    assert_eq!(r.error.as_deref(), Some("feed not found"));
}

#[test]
fn settle_body_upserts_and_counts_new_entries() {
    let (mut s, id) = store_with_feed();
    let r = settle_fetch(&mut s, id, body(RSS), "2024-01-01T00:00:00Z");
    assert_eq!(r.status, "ok");
    assert_eq!(r.new_entries, 2);
    assert!(!r.not_modified);
    assert_eq!(r.error, None);
    let again = settle_fetch(&mut s, id, body(RSS), "2024-01-02T00:00:00Z");
    assert_eq!(again.new_entries, 0);
    let info = s.fetch_info(id).unwrap();
    assert_eq!(info.etag.as_deref(), Some("\"v1\""));
    assert_eq!(info.last_modified.as_deref(), Some("Mon, 01 Jan 2024 00:00:00 GMT"));
    assert_eq!(s.get_feed(id).unwrap().title.as_deref(), Some("Chan"));
}

#[test]
fn settle_304_in_either_form() {
    let (mut s, id) = store_with_feed();
    let r = settle_fetch(&mut s, id, FetchReply::NotModified, "2024-01-01T00:00:00Z");
    assert_eq!((r.status, r.new_entries, r.not_modified), ("ok", 0, true));
    let r = settle_fetch(&mut s, id, FetchReply::Status(304), "2024-01-02T00:00:00Z");
    assert_eq!((r.status, r.new_entries, r.not_modified), ("ok", 0, true));
    assert_eq!(s.get_feed(id).unwrap().last_fetched_at.as_deref(), Some("2024-01-02T00:00:00Z"));
}

#[test]
fn settle_failures_are_recorded_with_their_message() {
    let (mut s, id) = store_with_feed();
    let r = settle_fetch(&mut s, id, FetchReply::Status(503), "T1");
    assert_eq!(r.status, "error");
    assert_eq!(r.error.as_deref(), Some("HTTP 503"));
    assert_eq!(s.get_feed(id).unwrap().last_error.as_deref(), Some("HTTP 503"));

    let r = settle_fetch(&mut s, id, FetchReply::Transport("dns failure".into()), "T2");
    assert_eq!(r.error.as_deref(), Some("fetch failed: dns failure"));

    let r = settle_fetch(&mut s, id, body("<html/>"), "T3");
    assert_eq!(r.error.as_deref(), Some("parse error: unrecognized feed format"));
    assert_eq!(s.get_feed(id).unwrap().last_error.as_deref(), Some("parse error: unrecognized feed format"));
    assert_eq!(s.query_entries(&EntryQuery::new()).unwrap().0, 0);
}
