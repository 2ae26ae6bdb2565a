use feedhub::params::parse_query;
use feedhub::rest::{already_registered, no_such_endpoint, no_such_feed, parse_entry_query, validate_feed_url, ApiError};

fn query_err(q: &str) -> ApiError {
    match parse_entry_query(&parse_query(q)) {
        Ok(_) => panic!("expected an error for {q}"),
        Err(e) => e,
    }
}

#[test]
fn http_and_https_urls_with_a_host_are_feeds() {
    assert!(validate_feed_url("https://example.com/f.rss").is_ok());
    assert!(validate_feed_url("http://127.0.0.1:8080/feed").is_ok());
    assert!(validate_feed_url("HTTP://Example.com/x").is_ok());
}

#[test]
fn other_schemes_are_refused_by_name() {
    let e = validate_feed_url("ftp://example.com/f.rss").unwrap_err();
    assert_eq!(e.status, 422);
    assert_eq!(e.message, "URL scheme must be http or https, not ftp");
    let e = validate_feed_url("mailto:someone@example.com").unwrap_err();
    assert_eq!(e.message, "URL scheme must be http or https, not mailto");
}

#[test]
fn unparsable_urls_are_refused() {
    let e = validate_feed_url("not a url").unwrap_err();
    assert_eq!(e.status, 422);
    assert_eq!(e.message, "not a valid URL: not a url");
    let e = validate_feed_url("http://").unwrap_err();
    assert_eq!(e.message, "not a valid URL: http://");
}

#[test]
fn entries_query_defaults() {
    let q = parse_entry_query(&parse_query("")).unwrap();
    assert_eq!(q.limit, 50);
    assert_eq!(q.offset, 0);
    assert_eq!(q.feed_id, None);
    assert_eq!(q.since, None);
    assert_eq!(q.until, None);
    assert_eq!(q.search, None);
}

#[test]
fn entries_query_reads_every_parameter() {
    let q = parse_entry_query(&parse_query(
        "feed_id=7&since=2024-01-01T02:00:00%2B02:00&until=2024-02-01T00:00:00.9Z&q=rust&limit=10&offset=20",
    ))
    .unwrap();
    assert_eq!(q.feed_id, Some(7));
    assert_eq!(q.since.as_deref(), Some("2024-01-01T00:00:00Z"));
    assert_eq!(q.until.as_deref(), Some("2024-02-01T00:00:01Z"));
    assert_eq!(q.search.as_deref(), Some("rust"));
    assert_eq!(q.limit, 10);
    assert_eq!(q.offset, 20);
}

#[test]
fn entries_query_caps_the_limit_and_drops_an_empty_search() {
    let q = parse_entry_query(&parse_query("limit=100000&q=")).unwrap();
    assert_eq!(q.limit, 500);
    assert_eq!(q.search, None);
}

#[test]
fn entries_query_refuses_negative_and_malformed_numbers() {
    let e = query_err("limit=-1");
    assert_eq!(e.status, 422);
    assert_eq!(e.message, "limit must not be negative");
    assert_eq!(query_err("offset=-5").message, "offset must not be negative");
    assert_eq!(query_err("limit=ten").message, "limit must be an integer");
    assert_eq!(query_err("feed_id=x").message, "feed_id must be an integer");
}

#[test]
fn entries_query_refuses_malformed_bounds() {
    let e = query_err("since=yesterday");
    assert_eq!(e.status, 422);
    assert_eq!(e.message, "since must be an RFC 3339 timestamp");
    assert_eq!(query_err("until=2024-13-01T00:00:00Z").message, "until must be an RFC 3339 timestamp");
}

#[test]
fn the_limit_is_checked_before_the_bounds() {
    assert_eq!(query_err("since=bad&limit=-2").message, "limit must not be negative");
}

#[test]
fn not_found_and_conflict_messages() {
    let e = no_such_feed(42);
    assert_eq!(e.status, 404);
    assert_eq!(e.message, "no feed with id 42");
    assert_eq!(no_such_feed(-3).message, "no feed with id -3");
    let e = no_such_endpoint();
    assert_eq!(e.status, 404);
    assert_eq!(e.message, "no such endpoint");
    let e = already_registered("https://example.com/f.rss");
    assert_eq!(e.status, 409);
    assert_eq!(e.message, "feed already registered: https://example.com/f.rss");
    let e = ApiError::internal("disk full");
    assert_eq!(e.status, 500);
    assert_eq!(e.message, "internal error: disk full");
}

#[test]
fn fractional_bounds_round_up_to_the_next_second() {
    let q = parse_entry_query(&parse_query("since=2024-03-01T12:00:00.5Z&until=2024-03-01T12:00:00.5Z")).unwrap();
    assert_eq!(q.since.as_deref(), Some("2024-03-01T12:00:01Z"));
    assert_eq!(q.until.as_deref(), Some("2024-03-01T12:00:01Z"));
    let q = parse_entry_query(&parse_query("since=2024-03-01T12:00:00Z")).unwrap();
    assert_eq!(q.since.as_deref(), Some("2024-03-01T12:00:00Z"));
}
