use feedhub::domfeed::{parse_feed, try_parse_feed, FeedFormat, ParseError};
use feedhub::feeddate::to_rfc3339_z;
use feedhub::text::UNTITLED;

#[test]
fn parses_rss_basic() {
    let xml = r#"<?xml version="1.0"?>
        <rss version="2.0"><channel>
          <title>Example</title>
          <item>
            <title>Hello &amp; World</title>
            <link>http://e/1</link>
            <guid>g1</guid>
            <description>Body</description>
            <pubDate>Mon, 06 Sep 2021 16:20:00 +0000</pubDate>
          </item>
        </channel></rss>"#;
    let feed = parse_feed(xml.as_bytes()).unwrap();
    assert_eq!(feed.format, FeedFormat::Rss);
    assert_eq!(feed.title.as_deref(), Some("Example"));
    assert_eq!(feed.entries.len(), 1);
    let e = &feed.entries[0];
    assert_eq!(e.guid, "g1");
    assert_eq!(e.title, "Hello & World");
    assert_eq!(e.link.as_deref(), Some("http://e/1"));
    assert_eq!(e.summary.as_deref(), Some("Body"));
    assert_eq!(to_rfc3339_z(e.published_at.unwrap()), "2021-09-06T16:20:00Z");
}

#[test]
fn rss_guid_falls_back_to_link() {
    let xml = r#"<rss version="2.0"><channel><title>t</title>
          <item><link>http://e/2</link></item>
        </channel></rss>"#;
    let feed = parse_feed(xml.as_bytes()).unwrap();
    assert_eq!(feed.entries[0].guid, "http://e/2");
    assert_eq!(feed.entries[0].title, UNTITLED);
}

#[test]
fn rss_cdata_is_verbatim() {
    let xml = r#"<rss version="2.0"><channel><title>t</title>
          <item><guid>g</guid><title><![CDATA[Raw <b>bold</b> &amp; stuff]]></title></item>
        </channel></rss>"#;
    let feed = parse_feed(xml.as_bytes()).unwrap();
    assert_eq!(feed.entries[0].title, "Raw <b>bold</b> &amp; stuff");
}

#[test]
fn rss_missing_date_is_null() {
    let xml = r#"<rss version="2.0"><channel><title>t</title>
          <item><guid>g</guid><title>x</title></item>
        </channel></rss>"#;
    let feed = parse_feed(xml.as_bytes()).unwrap();
    assert!(feed.entries[0].published_at.is_none());
}

#[test]
fn parses_atom_basic() {
    let xml = r#"<?xml version="1.0"?>
        <feed xmlns="http://www.w3.org/2005/Atom">
          <title>Atomic</title>
          <entry>
            <id>urn:1</id>
            <title>Entry One</title>
            <link rel="edit" href="http://e/edit"/>
            <link rel="alternate" href="http://e/1"/>
            <summary>Sum</summary>
            <published>2021-09-06T18:20:00+02:00</published>
          </entry>
        </feed>"#;
    let feed = parse_feed(xml.as_bytes()).unwrap();
    assert_eq!(feed.format, FeedFormat::Atom);
    assert_eq!(feed.title.as_deref(), Some("Atomic"));
    let e = &feed.entries[0];
    assert_eq!(e.guid, "urn:1");
    assert_eq!(e.link.as_deref(), Some("http://e/1"));
    assert_eq!(e.summary.as_deref(), Some("Sum"));
    assert_eq!(to_rfc3339_z(e.published_at.unwrap()), "2021-09-06T16:20:00Z");
}

#[test]
fn atom_published_falls_back_to_updated_and_content() {
    let xml = r#"<feed xmlns="http://www.w3.org/2005/Atom"><title>t</title>
          <entry>
            <id>urn:2</id><title>x</title>
            <content>Contented</content>
            <updated>2021-01-01T00:00:00Z</updated>
          </entry>
        </feed>"#;
    let feed = parse_feed(xml.as_bytes()).unwrap();
    let e = &feed.entries[0];
    assert_eq!(e.summary.as_deref(), Some("Contented"));
    assert_eq!(to_rfc3339_z(e.published_at.unwrap()), "2021-01-01T00:00:00Z");
}

#[test]
fn malformed_xml_errors() {
    let xml = b"<rss><channel><item></channel>";
    assert!(matches!(parse_feed(xml), Err(ParseError::Xml(_))));
}

#[test]
fn unrecognized_root_errors() {
    let xml = b"<html><body>hi</body></html>";
    assert!(matches!(parse_feed(xml), Err(ParseError::Unrecognized)));
}

#[test]
fn tolerates_leading_bom() {
    let mut bytes = vec![0xEF, 0xBB, 0xBF];
    bytes.extend_from_slice(
        br#"<rss version="2.0"><channel><title>b</title><item><guid>g</guid><title>x</title></item></channel></rss>"#,
    );
    let feed = parse_feed(&bytes).unwrap();
    assert_eq!(feed.title.as_deref(), Some("b"));
}

#[test]
fn tree_rss_without_channel_is_unrecognized() {
    assert!(matches!(parse_feed(b"<rss version=\"2.0\"><item/></rss>"), Err(ParseError::Unrecognized)));
}

#[test]
fn tree_text_spans_nested_elements_and_is_trimmed() {
    let xml = br#"<rss><channel><title>  A <b>bold</b> title  </title><item><guid> g </guid><title>   </title></item></channel></rss>"#;
    let feed = parse_feed(xml).unwrap();
    assert_eq!(feed.title.as_deref(), Some("A bold title"));
    assert_eq!(feed.entries[0].guid, "g");
    assert_eq!(feed.entries[0].title, UNTITLED);
}

#[test]
fn tree_identity_is_synthesized_without_guid_or_link() {
    let xml = br#"<rss><channel><item><title>T</title></item><item></item></channel></rss>"#;
    let feed = parse_feed(xml).unwrap();
    assert_eq!(feed.entries[0].guid, "synth:T|");
    assert_eq!(feed.entries[1].guid, "synth:|");
}

#[test]
fn tree_atom_link_without_alternate_uses_first_and_text() {
    let xml = br#"<feed xmlns="http://www.w3.org/2005/Atom"><entry><id>i</id><link rel="edit">http://e/text</link><link href="http://e/2"/></entry></feed>"#;
    let feed = parse_feed(xml).unwrap();
    assert_eq!(feed.entries[0].link.as_deref(), Some("http://e/text"));
}

#[test]
fn tree_items_only_from_the_channel() {
    let xml = br#"<rss><channel><item><guid>a</guid></item><x><item><guid>nested</guid></item></x><item><guid>b</guid></item></channel><item><guid>outside</guid></item></rss>"#;
    let feed = parse_feed(xml).unwrap();
    let guids: Vec<&str> = feed.entries.iter().map(|e| e.guid.as_str()).collect();
    assert_eq!(guids, ["a", "b"]);
}

#[test]
fn tree_unreadable_pubdate_month_is_refused_up_front() {
    let xml = "<rss><channel><item><guid>g</guid><pubDate>06 \u{e9}\u{e9}x 2021 16:20 GMT</pubDate></item></channel></rss>";
    assert!(try_parse_feed(xml.as_bytes()).is_none());
    let ok = "<rss><channel><item><guid>g</guid><pubDate>Mon, 06 Sep 2021 16:20:00 GMT</pubDate></item></channel></rss>";
    let feed = try_parse_feed(ok.as_bytes()).unwrap().unwrap();
    assert_eq!(to_rfc3339_z(feed.entries[0].published_at.unwrap()), "2021-09-06T16:20:00Z");
}

#[test]
fn tree_error_messages() {
    assert_eq!(ParseError::Unrecognized.message(), "unrecognized feed format");
    match parse_feed(b"<a>") {
        Err(e @ ParseError::Xml(_)) => assert!(e.message().starts_with("malformed XML: ")),
        _ => panic!("expected an XML error"),
    }
}
