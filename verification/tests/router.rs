use feedhub::router::{
    check_feed_url, entry_query, internal, normalize_instant, parse_id, route, split_url, HttpMethod, Route,
};

fn pairs(v: &[(&str, &str)]) -> Vec<(String, String)> {
    v.iter().map(|(k, v)| (k.to_string(), v.to_string())).collect()
}

#[test]
fn routes_select_handlers() {
    assert!(matches!(route(HttpMethod::Get, "/api/health"), Route::Health));
    assert!(matches!(route(HttpMethod::Post, "/api/feeds"), Route::AddFeed));
    assert!(matches!(route(HttpMethod::Get, "/api/feeds/"), Route::ListFeeds));
    assert!(matches!(route(HttpMethod::Get, "/api/feeds/7"), Route::GetFeed(ref id) if id == "7"));
    assert!(matches!(route(HttpMethod::Delete, "//api//feeds/x"), Route::DeleteFeed(ref id) if id == "x"));
    assert!(matches!(route(HttpMethod::Post, "/api/feeds/3/refresh"), Route::RefreshFeed(ref id) if id == "3"));
    assert!(matches!(route(HttpMethod::Post, "/api/refresh"), Route::RefreshAll));
    assert!(matches!(route(HttpMethod::Get, "/api/entries"), Route::Entries));
    assert!(matches!(route(HttpMethod::Delete, "/api/feeds"), Route::NotFound));
    assert!(matches!(route(HttpMethod::Other, "/api/health"), Route::NotFound));
    assert!(matches!(route(HttpMethod::Get, "/health"), Route::NotFound));
}

#[test]
fn split_url_decodes_the_query() {
    let (path, q) = split_url("/api/entries?q=hello%20world&&limit=10&flag");
    assert_eq!(path, "/api/entries");
    assert_eq!(q, pairs(&[("q", "hello world"), ("limit", "10"), ("flag", "")]));
    let (path, q) = split_url("/api/feeds");
    assert_eq!(path, "/api/feeds");
    assert!(q.is_empty());
}

#[test]
fn ids_parse_or_are_not_found() {
    assert_eq!(parse_id("42"), Ok(42));
    assert_eq!(parse_id("-3"), Ok(-3));
    assert_eq!(parse_id("x1"), Err((404, "feed not found".to_string())));
    assert_eq!(internal("boom".to_string()), (500, "boom".to_string()));
}

#[test]
fn bounds_are_normalized_to_whole_second_utc() {
    assert_eq!(normalize_instant("2024-03-01T12:30:00.5+02:00"), Ok("2024-03-01T10:30:00Z".to_string()));
    assert_eq!(
        normalize_instant("soon"),
        Err((400, "invalid RFC 3339 instant: soon".to_string()))
    );
}

#[test]
fn entry_query_defaults_clamps_and_errors() {
    let q = entry_query(&pairs(&[])).unwrap();
    assert_eq!((q.feed_id, q.limit, q.offset), (None, 50, 0));
    let q = entry_query(&pairs(&[
        ("feed_id", "3"),
        ("limit", "9999"),
        ("offset", "-5"),
        ("q", "rust"),
        ("since", "2024-01-01T00:00:00Z"),
        ("other", "x"),
    ]))
    .unwrap();
    assert_eq!(q.feed_id, Some(3));
    assert_eq!(q.limit, 500);
    assert_eq!(q.offset, 0);
    assert_eq!(q.search.as_deref(), Some("rust"));
    assert_eq!(q.since.as_deref(), Some("2024-01-01T00:00:00Z"));
    assert!(q.until.is_none());
    assert_eq!(
        entry_query(&pairs(&[("limit", "ten"), ("feed_id", "x")])).unwrap_err(),
        (400, "invalid limit".to_string())
    );
    assert_eq!(entry_query(&pairs(&[("limit", "-1")])).unwrap().limit, 0);
    assert_eq!(
        entry_query(&pairs(&[("until", "nope")])).unwrap_err(),
        (400, "invalid RFC 3339 instant: nope".to_string())
    );
}

#[test]
fn feed_urls_must_be_http() {
    assert_eq!(check_feed_url("  https://x.test/feed "), Ok("https://x.test/feed".to_string()));
    assert_eq!(check_feed_url("http://x"), Ok("http://x".to_string()));
    assert_eq!(check_feed_url("ftp://x"), Err((422, "url must be http(s)".to_string())));
}
