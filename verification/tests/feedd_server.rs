use feedhub::params::{is_valid_http_url, parse_instant_ms, parse_query, percent_decode};

#[test]
fn valid_http_urls() {
    assert!(is_valid_http_url("http://example.com/feed"));
    assert!(is_valid_http_url("https://example.com"));
    assert!(is_valid_http_url("HTTP://Example.com/x"));
    assert!(!is_valid_http_url("ftp://example.com"));
    assert!(!is_valid_http_url("example.com"));
    assert!(!is_valid_http_url("http://"));
}

#[test]
fn percent_decode_keeps_plus() {
    assert_eq!(percent_decode("a%20b"), "a b");
    assert_eq!(percent_decode("2021-09-06T16:20:00%2B02:00"), "2021-09-06T16:20:00+02:00");
    assert_eq!(percent_decode("x+y"), "x+y");
}

#[test]
fn parse_query_pairs() {
    let m = parse_query("feed_id=3&q=hello%20world&limit=10");
    assert_eq!(m.get("feed_id").unwrap(), "3");
    assert_eq!(m.get("q").unwrap(), "hello world");
    assert_eq!(m.get("limit").unwrap(), "10");
}

#[test]
fn parse_instant_ms_cases() {
    assert_eq!(parse_instant_ms(None), Ok(None));
    assert_eq!(parse_instant_ms(Some(&String::new())), Ok(None));
    assert!(parse_instant_ms(Some(&"2021-09-06T16:20:00Z".to_string())).unwrap().is_some());
    assert_eq!(parse_instant_ms(Some(&"nope".to_string())), Err(()));
}
