use feedhub::refresh::{reconcile_fetch, FetchOutcome};
use feedhub::store::{EntryQuery, Store};

const RSS: &str = r#"<rss version="2.0"><channel><title>Chan</title>
<item><guid>a</guid><title>A</title><pubDate>Mon, 06 Sep 2021 16:20:00 +0000</pubDate></item>
<item><guid>b</guid><title>B</title></item>
</channel></rss>"#;

fn body(s: &str) -> FetchOutcome {
    FetchOutcome::Fetched { body: s.as_bytes().to_vec(), etag: Some("\"e\"".into()), last_modified: None }
}

#[test]
fn reconcile_a_missing_feed_is_none() {
    let mut s = Store::open_in_memory();
    assert!(reconcile_fetch(&mut s, 1, Ok(FetchOutcome::NotModified), "T").is_none());
}

#[test]
fn reconcile_stores_a_parsed_body_and_counts() {
    let mut s = Store::open_in_memory();
    let f = s.add_feed("https://example.com/f.rss").unwrap();
    let r = reconcile_fetch(&mut s, f.id, Ok(body(RSS)), "2024-01-01T00:00:00Z").unwrap();
    assert_eq!(r.status, "ok");
    assert_eq!(r.new_entries, 2);
    assert_eq!(r.updated_entries, 0);
    assert!(!r.not_modified);
    assert_eq!(r.error, None);
    let again = reconcile_fetch(&mut s, f.id, Ok(body(RSS)), "2024-01-02T00:00:00Z").unwrap();
    assert_eq!(again.new_entries, 0);
    assert_eq!(again.updated_entries, 2);
    let feed = s.get_feed(f.id).unwrap();
    assert_eq!(feed.title.as_deref(), Some("Chan"));
    assert_eq!(feed.entry_count, 2);
    assert_eq!(s.fetch_info(f.id).unwrap().etag.as_deref(), Some("\"e\""));
}

#[test]
fn reconcile_not_modified_reports_no_new_entries() {
    let mut s = Store::open_in_memory();
    let f = s.add_feed("https://example.com/f.rss").unwrap();
    let r = reconcile_fetch(&mut s, f.id, Ok(FetchOutcome::NotModified), "2024-01-01T00:00:00Z").unwrap();
    assert_eq!(r.status, "ok");
    assert_eq!(r.new_entries, 0);
    assert_eq!(r.updated_entries, 0);
    assert!(r.not_modified);
    assert_eq!(s.get_feed(f.id).unwrap().last_fetched_at.as_deref(), Some("2024-01-01T00:00:00Z"));
}

#[test]
fn reconcile_records_fetch_and_parse_failures() {
    let mut s = Store::open_in_memory();
    let f = s.add_feed("https://example.com/f.rss").unwrap();
    let r = reconcile_fetch(&mut s, f.id, Err("connection refused".into()), "T1").unwrap();
    assert_eq!(r.status, "error");
    assert_eq!(r.error.as_deref(), Some("connection refused"));
    assert_eq!(r.updated_entries, 0);
    assert!(!r.not_modified);
    assert_eq!(s.get_feed(f.id).unwrap().last_error.as_deref(), Some("connection refused"));
    assert_eq!(s.get_feed(f.id).unwrap().last_fetched_at, None, "the last successful fetch time stays");

    let r = reconcile_fetch(&mut s, f.id, Ok(body("<html/>")), "T2").unwrap();
    assert_eq!(r.status, "error");
    let msg = r.error.unwrap();
    assert!(msg.starts_with("unrecognized feed format"), "{msg}");
    assert_eq!(s.get_feed(f.id).unwrap().last_error.as_deref(), Some(msg.as_str()));
    assert_eq!(s.query_entries(&EntryQuery::new()).unwrap().0, 0);
}

#[test]
fn every_report_has_the_documented_shape() {
    let mut s = Store::open_in_memory();
    let f = s.add_feed("https://example.com/f.rss").unwrap();
    let outcomes = vec![
        Ok(body(RSS)),
        Ok(FetchOutcome::NotModified),
        Err("timeout".to_string()),
        Ok(body("not xml <")),
    ];
    for o in outcomes {
        let r = reconcile_fetch(&mut s, f.id, o, "T").unwrap();
        assert!(r.status == "ok" || r.status == "error");
        assert_eq!(r.error.is_some(), r.status == "error");
        assert_eq!(r.is_ok(), r.status == "ok");
    }
}
