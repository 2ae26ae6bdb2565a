use feedhub::datetime::parse_rfc3339;
use feedhub::model::{FeedKind, ParsedEntry, ParsedFeed};
use feedhub::refresh::{apply_fetch, ApplyCounts};
use feedhub::store::{EntryQuery, Store, StoreError};

fn store() -> Store {
    Store::open_in_memory()
}

fn entry(guid: &str, title: &str, published: Option<&str>) -> ParsedEntry {
    ParsedEntry {
        guid: guid.into(),
        title: title.into(),
        link: Some(format!("https://example.com/{guid}")),
        summary: Some(format!("summary of {guid}")),
        published_at: published.map(|p| parse_rfc3339(p).expect("test literal")),
    }
}

fn success(entries: Vec<ParsedEntry>) -> ParsedFeed {
    ParsedFeed { kind: FeedKind::Rss, title: Some("Feed Title".into()), entries }
}

fn apply(s: &mut Store, id: i64, fetch: &ParsedFeed, at: &str) -> ApplyCounts {
    apply_fetch(s, id, fetch, Some("\"v1\""), None, at).unwrap()
}

fn query() -> EntryQuery {
    EntryQuery { limit: 50, ..Default::default() }
}

fn titles(items: &[feedhub::model::Entry]) -> Vec<&str> {
    items.iter().map(|e| e.title.as_str()).collect()
}

#[test]
fn add_feed_starts_with_no_title_no_fetch_and_no_entries() {
    let mut s = store();
    let feed = s.add_feed("https://example.com/f.rss").unwrap();
    assert_eq!(feed.title, None, "title is null until the first successful fetch");
    assert_eq!(feed.last_fetched_at, None);
    assert_eq!(feed.last_error, None);
    assert_eq!(feed.entry_count, 0);
}

#[test]
fn duplicate_url_is_rejected() {
    let mut s = store();
    s.add_feed("https://example.com/f.rss").unwrap();
    let err = s.add_feed("https://example.com/f.rss").unwrap_err();
    assert!(matches!(err, StoreError::Duplicate), "got {err:?}");
}

#[test]
fn entry_count_reflects_stored_entries() {
    let mut s = store();
    let feed = s.add_feed("https://example.com/f.rss").unwrap();
    apply(&mut s, feed.id, &success(vec![entry("a", "A", None), entry("b", "B", None)]), "2020-01-01T00:00:00Z");
    assert_eq!(s.get_feed(feed.id).unwrap().entry_count, 2);
}

#[test]
fn deleting_a_feed_deletes_its_entries_and_leaves_others_alone() {
    let mut s = store();
    let doomed = s.add_feed("https://example.com/a.rss").unwrap();
    let keeper = s.add_feed("https://example.com/b.rss").unwrap();
    apply(&mut s, doomed.id, &success(vec![entry("a", "A", None)]), "2020-01-01T00:00:00Z");
    apply(&mut s, keeper.id, &success(vec![entry("b", "B", None)]), "2020-01-01T00:00:00Z");

    assert!(s.delete_feed(doomed.id));
    assert!(s.get_feed(doomed.id).is_none());

    let (total, items) = s.query_entries(&query()).unwrap();
    assert_eq!(total, 1, "the deleted feed's entries must go with it");
    assert_eq!(items[0].feed_id, keeper.id);
}

#[test]
fn deleting_a_missing_feed_reports_false() {
    assert!(!store().delete_feed(999));
}

#[test]
fn re_fetching_identical_content_inserts_nothing() {
    let mut s = store();
    let feed = s.add_feed("https://example.com/f.rss").unwrap();
    let fetch = success(vec![
        entry("a", "A", Some("2020-01-01T00:00:00Z")),
        entry("b", "B", Some("2020-01-02T00:00:00Z")),
    ]);

    let first = apply(&mut s, feed.id, &fetch, "2020-01-01T00:00:00Z");
    assert_eq!(first, ApplyCounts { new_entries: 2, updated_entries: 0 });

    let second = apply(&mut s, feed.id, &fetch, "2020-01-03T00:00:00Z");
    assert_eq!(
        second,
        ApplyCounts { new_entries: 0, updated_entries: 2 },
        "a second fetch of the same content must insert nothing"
    );
    assert_eq!(s.get_feed(feed.id).unwrap().entry_count, 2);
}

#[test]
fn a_known_identity_updates_in_place_keeping_id_and_fetched_at() {
    let mut s = store();
    let feed = s.add_feed("https://example.com/f.rss").unwrap();

    apply(
        &mut s,
        feed.id,
        &success(vec![entry("a", "Original title", Some("2020-01-01T00:00:00Z"))]),
        "2020-01-01T00:00:00Z",
    );
    let before = s.query_entries(&query()).unwrap().1[0].clone();

    let mut changed = entry("a", "Revised title", Some("2020-06-01T00:00:00Z"));
    changed.summary = Some("revised summary".into());
    changed.link = Some("https://example.com/moved".into());
    let counts = apply(&mut s, feed.id, &success(vec![changed]), "2020-12-25T00:00:00Z");

    assert_eq!(counts, ApplyCounts { new_entries: 0, updated_entries: 1 });
    let (total, items) = s.query_entries(&query()).unwrap();
    assert_eq!(total, 1, "no duplicate row");

    let after = &items[0];
    assert_eq!(after.id, before.id, "the entry keeps its internal id");
    assert_eq!(after.fetched_at, before.fetched_at, "the entry keeps its original fetched_at");
    assert_eq!(after.title, "Revised title");
    assert_eq!(after.summary.as_deref(), Some("revised summary"));
    assert_eq!(after.link.as_deref(), Some("https://example.com/moved"));
    assert_eq!(after.published_at.as_deref(), Some("2020-06-01T00:00:00Z"));
}

#[test]
fn the_same_guid_twice_in_one_document_yields_one_row() {
    let mut s = store();
    let feed = s.add_feed("https://example.com/f.rss").unwrap();
    let counts = apply(
        &mut s,
        feed.id,
        &success(vec![entry("dup", "First", None), entry("dup", "Second", None)]),
        "2020-01-01T00:00:00Z",
    );

    assert_eq!(counts.new_entries, 1, "a repeated guid must not be counted twice");
    assert_eq!(s.get_feed(feed.id).unwrap().entry_count, 1);
}

#[test]
fn the_same_guid_in_different_feeds_is_two_entries() {
    let mut s = store();
    let a = s.add_feed("https://example.com/a.rss").unwrap();
    let b = s.add_feed("https://example.com/b.rss").unwrap();
    apply(&mut s, a.id, &success(vec![entry("shared", "A", None)]), "2020-01-01T00:00:00Z");
    let counts = apply(&mut s, b.id, &success(vec![entry("shared", "B", None)]), "2020-01-01T00:00:00Z");
    assert_eq!(counts.new_entries, 1);
    assert_eq!(s.query_entries(&query()).unwrap().0, 2);
}

#[test]
fn title_appears_on_first_success_and_updates_on_refresh() {
    let mut s = store();
    let feed = s.add_feed("https://example.com/f.rss").unwrap();
    assert_eq!(feed.title, None);

    apply(&mut s, feed.id, &success(vec![]), "2020-01-01T00:00:00Z");
    assert_eq!(s.get_feed(feed.id).unwrap().title.as_deref(), Some("Feed Title"));

    let mut renamed = success(vec![]);
    renamed.title = Some("Renamed Feed".into());
    apply(&mut s, feed.id, &renamed, "2020-01-02T00:00:00Z");
    assert_eq!(s.get_feed(feed.id).unwrap().title.as_deref(), Some("Renamed Feed"));
}

#[test]
fn a_failure_preserves_the_title_and_entries() {
    let mut s = store();
    let feed = s.add_feed("https://example.com/f.rss").unwrap();
    apply(&mut s, feed.id, &success(vec![entry("a", "A", None)]), "2020-01-01T00:00:00Z");

    s.record_error(feed.id, "2020-01-02T00:00:00Z", "connection refused");

    let feed = s.get_feed(feed.id).unwrap();
    assert_eq!(feed.title.as_deref(), Some("Feed Title"), "title survives a failure");
    assert_eq!(feed.entry_count, 1, "entries survive a failure");
    assert_eq!(feed.last_error.as_deref(), Some("connection refused"));
}

#[test]
fn a_title_less_fetch_does_not_blank_a_known_title() {
    let mut s = store();
    let feed = s.add_feed("https://example.com/f.rss").unwrap();
    apply(&mut s, feed.id, &success(vec![]), "2020-01-01T00:00:00Z");

    let mut untitled = success(vec![]);
    untitled.title = None;
    apply(&mut s, feed.id, &untitled, "2020-01-02T00:00:00Z");

    assert_eq!(s.get_feed(feed.id).unwrap().title.as_deref(), Some("Feed Title"));
}

#[test]
fn any_successful_fetch_clears_last_error() {
    let mut s = store();
    let feed = s.add_feed("https://example.com/f.rss").unwrap();
    s.record_error(feed.id, "2020-01-01T00:00:00Z", "boom");
    assert!(s.get_feed(feed.id).unwrap().last_error.is_some());

    apply(&mut s, feed.id, &success(vec![]), "2020-01-02T00:00:00Z");
    assert_eq!(s.get_feed(feed.id).unwrap().last_error, None);
}

#[test]
fn a_304_counts_as_success_and_leaves_entries_untouched() {
    let mut s = store();
    let feed = s.add_feed("https://example.com/f.rss").unwrap();
    apply(&mut s, feed.id, &success(vec![entry("a", "A", None)]), "2020-01-01T00:00:00Z");
    s.record_error(feed.id, "2020-01-02T00:00:00Z", "transient");

    s.record_not_modified(feed.id, "2020-01-03T00:00:00Z");

    let feed = s.get_feed(feed.id).unwrap();
    assert_eq!(feed.last_error, None, "304 is a successful fetch");
    assert_eq!(feed.last_fetched_at.as_deref(), Some("2020-01-03T00:00:00Z"));
    assert_eq!(feed.entry_count, 1, "304 leaves entries untouched");
}

#[test]
fn an_error_on_one_feed_does_not_touch_another() {
    let mut s = store();
    let broken = s.add_feed("https://example.com/broken.rss").unwrap();
    let healthy = s.add_feed("https://example.com/healthy.rss").unwrap();
    apply(&mut s, healthy.id, &success(vec![entry("h", "H", None)]), "2020-01-01T00:00:00Z");

    s.record_error(broken.id, "2020-01-02T00:00:00Z", "malformed XML");

    let healthy = s.get_feed(healthy.id).unwrap();
    assert_eq!(healthy.last_error, None);
    assert_eq!(healthy.entry_count, 1);
    assert_eq!(healthy.title.as_deref(), Some("Feed Title"));
}

fn seeded() -> (Store, i64) {
    let mut s = store();
    let feed = s.add_feed("https://example.com/f.rss").unwrap();
    apply(
        &mut s,
        feed.id,
        &success(vec![
            entry("old", "Old post", Some("2020-01-01T00:00:00Z")),
            entry("new", "New post", Some("2020-03-01T00:00:00Z")),
            entry("mid", "Mid post", Some("2020-02-01T00:00:00Z")),
            entry("undated-1", "Undated one", None),
            entry("undated-2", "Undated two", None),
        ]),
        "2020-06-01T00:00:00Z",
    );
    (s, feed.id)
}

#[test]
fn ordering_is_newest_first_then_nulls_last_by_id() {
    let (s, _) = seeded();
    let (_, items) = s.query_entries(&query()).unwrap();
    assert_eq!(titles(&items), ["New post", "Mid post", "Old post", "Undated one", "Undated two"]);

    let undated: Vec<i64> = items[3..].iter().map(|e| e.id).collect();
    assert!(undated[0] < undated[1], "ties break by ascending entry id");
}

#[test]
fn equal_dates_break_ties_by_ascending_entry_id() {
    let mut s = store();
    let feed = s.add_feed("https://example.com/f.rss").unwrap();
    apply(
        &mut s,
        feed.id,
        &success(vec![
            entry("first", "First inserted", Some("2020-01-01T00:00:00Z")),
            entry("second", "Second inserted", Some("2020-01-01T00:00:00Z")),
        ]),
        "2020-06-01T00:00:00Z",
    );

    let (_, items) = s.query_entries(&query()).unwrap();
    assert_eq!(items[0].title, "First inserted");
    assert!(items[0].id < items[1].id);
}

#[test]
fn since_is_inclusive_and_until_is_exclusive() {
    let (s, _) = seeded();

    let (_, items) =
        s.query_entries(&EntryQuery { since: Some("2020-02-01T00:00:00Z".into()), ..query() }).unwrap();
    assert_eq!(titles(&items), ["New post", "Mid post"], "since is inclusive");

    let (_, items) =
        s.query_entries(&EntryQuery { until: Some("2020-02-01T00:00:00Z".into()), ..query() }).unwrap();
    assert_eq!(titles(&items), ["Old post"], "until is exclusive");
}

#[test]
fn a_sub_second_bound_compares_as_a_true_instant() {
    let mut s = store();
    let feed = s.add_feed("https://example.com/f.rss").unwrap();
    apply(
        &mut s,
        feed.id,
        &success(vec![entry("frac", "Fractional", Some("2020-01-01T00:00:00.900Z"))]),
        "2020-06-01T00:00:00Z",
    );

    let (since_half, _) =
        s.query_entries(&EntryQuery { since: Some("2020-01-01T00:00:00.500Z".into()), ..query() }).unwrap();
    assert_eq!(since_half, 1, ".900 >= .500 must match");

    let (until_half, _) =
        s.query_entries(&EntryQuery { until: Some("2020-01-01T00:00:00.500Z".into()), ..query() }).unwrap();
    assert_eq!(until_half, 0, ".900 < .500 must not match");
}

#[test]
fn undated_entries_drop_out_as_soon_as_either_bound_is_given() {
    let (s, _) = seeded();

    let (total, _) = s.query_entries(&query()).unwrap();
    assert_eq!(total, 5, "no bounds: undated entries are included");

    for bounded in [
        EntryQuery { since: Some("1970-01-01T00:00:00Z".into()), ..query() },
        EntryQuery { until: Some("2999-01-01T00:00:00Z".into()), ..query() },
    ] {
        let (total, items) = s.query_entries(&bounded).unwrap();
        assert_eq!(total, 3, "a bound must exclude undated entries");
        assert!(items.iter().all(|e| e.published_at.is_some()));
    }
}

#[test]
fn search_folds_ascii_case_and_matches_substrings() {
    let (s, _) = seeded();
    for term in ["old post", "OLD POST", "Old Post", "ld po"] {
        let (total, items) = s.query_entries(&EntryQuery { q: Some(term.into()), ..query() }).unwrap();
        assert_eq!(total, 1, "{term:?} should match Old post");
        assert_eq!(items[0].title, "Old post");
    }
}

#[test]
fn search_treats_like_metacharacters_literally() {
    let (s, _) = seeded();
    for term in ["%", "_", "%post%"] {
        let (total, _) = s.query_entries(&EntryQuery { q: Some(term.into()), ..query() }).unwrap();
        assert_eq!(total, 0, "{term:?} must be a literal, not a wildcard");
    }

    let mut s2 = store();
    let feed = s2.add_feed("https://example.com/f.rss").unwrap();
    apply(&mut s2, feed.id, &success(vec![entry("pct", "100% certain", None)]), "2020-01-01T00:00:00Z");
    let (total, _) = s2.query_entries(&EntryQuery { q: Some("100%".into()), ..query() }).unwrap();
    assert_eq!(total, 1, "a literal % must match a literal %");
}

#[test]
fn feed_id_restricts_to_one_feed() {
    let mut s = store();
    let a = s.add_feed("https://example.com/a.rss").unwrap();
    let b = s.add_feed("https://example.com/b.rss").unwrap();
    apply(&mut s, a.id, &success(vec![entry("a", "From A", None)]), "2020-01-01T00:00:00Z");
    apply(&mut s, b.id, &success(vec![entry("b", "From B", None)]), "2020-01-01T00:00:00Z");

    let (total, items) = s.query_entries(&EntryQuery { feed_id: Some(a.id), ..query() }).unwrap();
    assert_eq!(total, 1);
    assert_eq!(items[0].title, "From A");
}

#[test]
fn total_ignores_limit_and_offset_while_items_respect_them() {
    let (s, _) = seeded();
    let (total, items) = s.query_entries(&EntryQuery { limit: 2, offset: 1, ..query() }).unwrap();

    assert_eq!(total, 5, "total is the match count, ignoring paging");
    assert_eq!(items.len(), 2);
    assert_eq!(titles(&items), ["Mid post", "Old post"], "offset skips the newest");
}

#[test]
fn an_offset_past_the_end_yields_no_items_but_a_real_total() {
    let (s, _) = seeded();
    let (total, items) = s.query_entries(&EntryQuery { limit: 50, offset: 999, ..query() }).unwrap();
    assert_eq!(total, 5);
    assert!(items.is_empty());
}

#[test]
fn filters_combine() {
    let (s, feed_id) = seeded();
    let (total, items) = s
        .query_entries(&EntryQuery {
            feed_id: Some(feed_id),
            since: Some("2020-01-15T00:00:00Z".into()),
            until: Some("2020-02-15T00:00:00Z".into()),
            q: Some("post".into()),
            limit: 50,
            offset: 0,
        })
        .unwrap();
    assert_eq!(total, 1);
    assert_eq!(items[0].title, "Mid post");
}

#[test]
fn apply_fetch_on_a_missing_feed_changes_nothing() {
    let mut s = store();
    let r = apply_fetch(&mut s, 7, &success(vec![entry("a", "A", None)]), None, None, "2020-01-01T00:00:00Z");
    assert!(matches!(r, Err(StoreError::NotFound)));
    assert_eq!(s.query_entries(&query()).unwrap().0, 0);
}

#[test]
fn apply_fetch_records_the_validators_and_fetch_time() {
    let mut s = store();
    let feed = s.add_feed("https://example.com/f.rss").unwrap();
    apply_fetch(&mut s, feed.id, &success(vec![]), Some("\"e1\""), Some("Mon, 01 Jan 2024 00:00:00 GMT"), "2024-01-01T00:00:00Z")
        .unwrap();
    let info = s.fetch_info(feed.id).unwrap();
    assert_eq!(info.etag.as_deref(), Some("\"e1\""));
    assert_eq!(info.last_modified.as_deref(), Some("Mon, 01 Jan 2024 00:00:00 GMT"));
    assert_eq!(s.get_feed(feed.id).unwrap().last_fetched_at.as_deref(), Some("2024-01-01T00:00:00Z"));
}
