use feedhub::date::{parse_date, to_rfc3339_z};
use feedhub::feed::{parse_feed, ParseError};
use feedhub::instant::Instant;
use feedhub::text::{clean_opt, title_or_untitled};

fn utc(s: &str) -> Instant {
    let dt = chrono::DateTime::parse_from_rfc3339(s).unwrap();
    Instant { secs: dt.timestamp(), nanos: dt.timestamp_subsec_nanos() }
}

#[test]
fn rfc3339_z() {
    assert_eq!(parse_date("2024-01-02T03:04:05Z"), Some(utc("2024-01-02T03:04:05Z")));
}

#[test]
fn rfc3339_offset_and_fractional() {
    assert_eq!(
        parse_date("2024-01-02T03:04:05.123-05:00").map(|d| to_rfc3339_z(&d)),
        Some("2024-01-02T08:04:05Z".to_string())
    );
}

#[test]
fn date_rfc822_numeric_offset() {
    assert_eq!(
        parse_date("Mon, 02 Jan 2024 03:04:05 -0500"),
        Some(utc("2024-01-02T08:04:05Z"))
    );
}

#[test]
fn rfc822_gmt_and_zero() {
    assert_eq!(
        parse_date("Tue, 10 Jun 2003 04:00:00 GMT"),
        Some(utc("2003-06-10T04:00:00Z"))
    );
    assert_eq!(
        parse_date("10 Jun 2003 09:00:00 +0000"),
        Some(utc("2003-06-10T09:00:00Z"))
    );
}

#[test]
fn date_rfc822_named_zones() {
    assert_eq!(
        parse_date("Mon, 02 Jan 2024 12:00:00 EST"),
        Some(utc("2024-01-02T17:00:00Z"))
    );
    assert_eq!(
        parse_date("Mon, 02 Jan 2024 12:00:00 PDT"),
        Some(utc("2024-01-02T19:00:00Z"))
    );
}

#[test]
fn rfc822_no_seconds() {
    assert_eq!(parse_date("02 Jan 2024 03:04 UT"), Some(utc("2024-01-02T03:04:00Z")));
}

#[test]
fn two_digit_year() {
    assert_eq!(parse_date("02 Jan 99 00:00:00 GMT"), Some(utc("1999-01-02T00:00:00Z")));
}

#[test]
fn unparseable_is_none() {
    assert_eq!(parse_date(""), None);
    assert_eq!(parse_date("not a date"), None);
    assert_eq!(parse_date("Someday in June"), None);
}

const RSS: &str = r#"<?xml version="1.0"?>
    <rss version="2.0"><channel>
      <title>Chan</title>
      <item>
        <title>First &amp; Best</title>
        <link>http://x/1</link>
        <description><![CDATA[<b>raw & html</b>]]></description>
        <guid>id-1</guid>
        <pubDate>Mon, 02 Jan 2024 03:04:05 -0500</pubDate>
      </item>
      <item>
        <link>http://x/2</link>
        <description>plain</description>
      </item>
    </channel></rss>"#;

const ATOM: &str = r#"<?xml version="1.0" encoding="utf-8"?>
    <feed xmlns="http://www.w3.org/2005/Atom">
      <title>AtomChan</title>
      <entry>
        <title>Entry One</title>
        <id>urn:1</id>
        <link rel="alternate" href="http://a/1"/>
        <summary>sum &lt;1&gt;</summary>
        <published>2024-01-02T03:04:05Z</published>
        <updated>2024-02-02T00:00:00Z</updated>
      </entry>
    </feed>"#;

#[test]
fn parse_parses_rss() {
    let f = parse_feed(RSS.as_bytes()).unwrap();
    assert_eq!(f.title.as_deref(), Some("Chan"));
    assert_eq!(f.items.len(), 2);
    let i0 = &f.items[0];
    assert_eq!(i0.guid, "id-1");
    assert_eq!(i0.title, "First & Best");
    assert_eq!(i0.link.as_deref(), Some("http://x/1"));
    assert_eq!(i0.summary.as_deref(), Some("<b>raw & html</b>"));
    assert!(i0.published_at.is_some());
    let i1 = &f.items[1];
    assert_eq!(i1.guid, "http://x/2");
    assert_eq!(i1.title, "(untitled)");
    assert!(i1.published_at.is_none());
}

#[test]
fn parse_parses_atom() {
    let f = parse_feed(ATOM.as_bytes()).unwrap();
    assert_eq!(f.title.as_deref(), Some("AtomChan"));
    assert_eq!(f.items.len(), 1);
    let e = &f.items[0];
    assert_eq!(e.guid, "urn:1");
    assert_eq!(e.title, "Entry One");
    assert_eq!(e.link.as_deref(), Some("http://a/1"));
    assert_eq!(e.summary.as_deref(), Some("sum <1>"));
    assert_eq!(to_rfc3339_z(&e.published_at.unwrap()), "2024-01-02T03:04:05Z");
}

#[test]
fn parse_bom_tolerated() {
    let mut bytes = vec![0xEF, 0xBB, 0xBF];
    bytes.extend_from_slice(ATOM.as_bytes());
    let f = parse_feed(&bytes).unwrap();
    assert_eq!(f.title.as_deref(), Some("AtomChan"));
}

#[test]
fn malformed_errors() {
    let r = parse_feed(b"<rss><channel><item></wrongtag></channel></rss>");
    assert!(r.is_err());
}

#[test]
fn unknown_format_errors() {
    let r = parse_feed(b"<html><body>hi</body></html>");
    assert!(matches!(r, Err(ParseError::UnknownFormat)));
}

#[test]
fn missing_title_is_untitled() {
    assert_eq!(title_or_untitled(None), "(untitled)");
    assert_eq!(title_or_untitled(Some("   ".into())), "(untitled)");
}

#[test]
fn present_title_trimmed() {
    assert_eq!(title_or_untitled(Some("  Hello  ".into())), "Hello");
}

#[test]
fn clean_opt_empty_is_none() {
    assert_eq!(clean_opt(Some(" ".into())), None);
    assert_eq!(clean_opt(None), None);
    assert_eq!(clean_opt(Some(" x ".into())), Some("x".to_string()));
}

#[test]
fn stored_titles_are_never_empty_and_clean_to_themselves() {
    for raw in [None, Some("".to_string()), Some(" \t ".to_string()), Some("  Hello  ".to_string())] {
        let t = title_or_untitled(raw);
        assert!(!t.is_empty());
        assert_eq!(clean_opt(Some(t.clone())), Some(t.clone()));
        assert_eq!(title_or_untitled(Some(t.clone())), t);
    }
}

#[test]
fn cleaning_twice_is_cleaning_once() {
    for raw in [None, Some("  ".to_string()), Some(" a b ".to_string()), Some("x".to_string())] {
        let once = clean_opt(raw);
        assert_eq!(clean_opt(once.clone()), once);
    }
}
