use feedhub::date::to_rfc3339_z;
use feedhub::onepass::parse_feed;


    const RSS: &str = r#"<?xml version="1.0"?>
    <rss version="2.0"><channel>
      <title>Example Feed</title>
      <item>
        <title>First &amp; Foremost</title>
        <link>http://example.com/1</link>
        <description>Hello &lt;world&gt;</description>
        <guid>id-1</guid>
        <pubDate>Mon, 02 Jan 2006 15:04:05 -0500</pubDate>
      </item>
      <item>
        <link>http://example.com/2</link>
        <description><![CDATA[Raw <b>bold</b> & stuff]]></description>
        <pubDate>bogus date</pubDate>
      </item>
    </channel></rss>"#;

    const ATOM: &str = r#"<?xml version="1.0" encoding="utf-8"?>
    <feed xmlns="http://www.w3.org/2005/Atom">
      <title>Atom Example</title>
      <entry>
        <title>Atom Entry</title>
        <id>urn:uuid:1</id>
        <link rel="edit" href="http://example.com/edit"/>
        <link rel="alternate" href="http://example.com/a1"/>
        <summary>A &amp; B</summary>
        <published>2006-01-02T15:04:05Z</published>
        <updated>2007-01-02T15:04:05Z</updated>
      </entry>
    </feed>"#;

    #[test]
    fn parses_rss() {
        let feed = parse_feed(RSS.as_bytes()).unwrap();
        assert_eq!(feed.title.as_deref(), Some("Example Feed"));
        assert_eq!(feed.entries.len(), 2);
        let e0 = &feed.entries[0];
        assert_eq!(e0.guid, "id-1");
        assert_eq!(e0.title, "First & Foremost");
        assert_eq!(e0.summary.as_deref(), Some("Hello <world>"));
        assert_eq!(e0.link.as_deref(), Some("http://example.com/1"));
        assert_eq!(
            to_rfc3339_z(&e0.published_at.unwrap()),
            "2006-01-02T20:04:05Z"
        );

        let e1 = &feed.entries[1];
        // no guid -> identity falls back to link
        assert_eq!(e1.guid, "http://example.com/2");
        assert_eq!(e1.title, "(untitled)");
        assert_eq!(e1.summary.as_deref(), Some("Raw <b>bold</b> & stuff"));
        assert!(e1.published_at.is_none());
    }

    #[test]
    fn parses_atom() {
        let feed = parse_feed(ATOM.as_bytes()).unwrap();
        assert_eq!(feed.title.as_deref(), Some("Atom Example"));
        assert_eq!(feed.entries.len(), 1);
        let e = &feed.entries[0];
        assert_eq!(e.guid, "urn:uuid:1");
        assert_eq!(e.title, "Atom Entry");
        assert_eq!(e.link.as_deref(), Some("http://example.com/a1"));
        assert_eq!(e.summary.as_deref(), Some("A & B"));
        // published preferred over updated
        assert_eq!(
            to_rfc3339_z(&e.published_at.unwrap()),
            "2006-01-02T15:04:05Z"
        );
    }

    #[test]
    fn bom_tolerated() {
        let mut bytes = vec![0xEF, 0xBB, 0xBF];
        bytes.extend_from_slice(RSS.as_bytes());
        let feed = parse_feed(&bytes).unwrap();
        assert_eq!(feed.title.as_deref(), Some("Example Feed"));
    }

    #[test]
    fn malformed_is_error() {
        let bad = b"<rss><channel><item><title>oops</notclosed>";
        assert!(parse_feed(bad).is_err());
    }

    #[test]
    fn truncated_document_is_error() {
        // Upstream server cut the response off mid-element: the document is
        // not well-formed (elements are left unclosed), so it must be a parse
        // error rather than a successful empty fetch.
        let truncated = b"<?xml version=\"1.0\" encoding=\"UTF-8\"?>\n\
            <rss version=\"2.0\"><channel><title>Nightly</title>\n\
            <item><guid>n-1</guid><title>Release no";
        assert!(parse_feed(truncated).is_err());
    }

#[test]
fn onepass_missing_identity_is_derived_from_the_texts() {
    let xml = r#"<rss><channel><item><title>T</title><description>D</description></item></channel></rss>"#;
    let a = parse_feed(xml.as_bytes()).unwrap();
    let b = parse_feed(xml.as_bytes()).unwrap();
    assert!(a.entries[0].guid.starts_with("feedhub:auto:"));
    assert_eq!(a.entries[0].guid.len(), "feedhub:auto:".len() + 16);
    assert_eq!(a.entries[0].guid, b.entries[0].guid);
    // FNV-1a of "T|D|" in 16 hex digits
    let mut h: u64 = 0xcbf29ce484222325;
    for byte in "T|D|".bytes() {
        h ^= byte as u64;
        h = h.wrapping_mul(0x100000001b3);
    }
    assert_eq!(a.entries[0].guid, format!("feedhub:auto:{h:016x}"));
}

#[test]
fn onepass_text_node_with_an_unknown_entity_is_dropped() {
    let xml = r#"<rss><channel><item><guid>g</guid><title>a &bogus; b</title></item></channel></rss>"#;
    let f = parse_feed(xml.as_bytes()).unwrap();
    assert_eq!(f.entries[0].title, "(untitled)");
}

#[test]
fn onepass_names_match_case_insensitively_and_across_prefixes() {
    let xml = r#"<RSS><Channel><x:Title>Chan</x:Title><ITEM><GUID>g</GUID><PubDate>Mon, 02 Jan 2006 15:04:05 GMT</PubDate></ITEM></Channel></RSS>"#;
    let f = parse_feed(xml.as_bytes()).unwrap();
    assert_eq!(f.title.as_deref(), Some("Chan"));
    assert_eq!(f.entries[0].guid, "g");
    assert_eq!(to_rfc3339_z(&f.entries[0].published_at.unwrap()), "2006-01-02T15:04:05Z");
}

#[test]
fn onepass_unknown_root_is_unknown_format() {
    let err = parse_feed(b"<html><body/></html>").unwrap_err();
    assert_eq!(err, feedhub::onepass::ParseError::UnknownFormat);
    assert_eq!(err.message(), "unrecognized feed format");
}

#[test]
fn tags_with_non_ascii_names_read_their_attributes() {
    let doc = "<feed xmlns=\"http://www.w3.org/2005/Atom\" xmlns:é=\"urn:x\"><title>T</title>\
<entry><id>e1</id><title>One</title><é:link href=\"http://a/1\"/><ünïcode ä=\"1\"/></entry></feed>";
    let feed = parse_feed(doc.as_bytes()).expect("document should parse");
    assert_eq!(feed.entries.len(), 1);
    assert_eq!(feed.entries[0].title, "One");
}
