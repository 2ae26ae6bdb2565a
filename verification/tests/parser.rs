use feedhub::datetime::format_rfc3339;
use feedhub::model::{FeedKind, ParsedFeed};
use feedhub::parser::{parse_feed, ParseError};
use feedhub::text::UNTITLED;
use feedhub::xml::resolve_reference;

const BOM: &[u8] = &[0xEF, 0xBB, 0xBF];


    fn parse(s: &str) -> ParsedFeed {
        parse_feed(s.as_bytes()).expect("fixture should parse").feed
    }

    const RSS: &str = r#"<?xml version="1.0"?>
<rss version="2.0"><channel>
  <title>Channel Title</title>
  <link>https://example.com</link>
  <item>
    <title>First</title>
    <link>https://example.com/1</link>
    <guid isPermaLink="false">guid-1</guid>
    <description>Summary one</description>
    <pubDate>Tue, 10 Jun 2003 04:00:00 GMT</pubDate>
  </item>
  <item>
    <title>Second</title>
    <link>https://example.com/2</link>
    <description>Summary two</description>
  </item>
</channel></rss>"#;

    const ATOM: &str = r#"<?xml version="1.0" encoding="utf-8"?>
<feed xmlns="http://www.w3.org/2005/Atom">
  <title>Feed Title</title>
  <entry>
    <id>urn:uuid:1</id>
    <title>Alpha</title>
    <link rel="self" href="https://example.com/self"/>
    <link rel="alternate" href="https://example.com/alpha"/>
    <summary>Alpha summary</summary>
    <published>2003-12-13T08:29:29-04:00</published>
    <updated>2005-01-01T00:00:00Z</updated>
  </entry>
</feed>"#;

    #[test]
    fn rss_happy_path() {
        let feed = parse(RSS);
        assert_eq!(feed.kind, FeedKind::Rss);
        assert_eq!(feed.title.as_deref(), Some("Channel Title"));
        assert_eq!(feed.entries.len(), 2);

        let first = &feed.entries[0];
        assert_eq!(first.guid, "guid-1");
        assert_eq!(first.title, "First");
        assert_eq!(first.link.as_deref(), Some("https://example.com/1"));
        assert_eq!(first.summary.as_deref(), Some("Summary one"));
        assert_eq!(
            first.published_at.map(format_rfc3339).as_deref(),
            Some("2003-06-10T04:00:00Z")
        );
    }

    #[test]
    fn rss_identity_falls_back_to_link_and_missing_date_is_null() {
        let feed = parse(RSS);
        let second = &feed.entries[1];
        assert_eq!(
            second.guid, "https://example.com/2",
            "no guid, so link is identity"
        );
        assert_eq!(
            second.published_at, None,
            "a missing pubDate must be NULL, never fetch time"
        );
    }

    #[test]
    fn rss_channel_title_is_not_taken_from_an_item() {
        // The channel <title> and the item <title> share an element name; only
        // the depth distinguishes them.
        let feed = parse(RSS);
        assert_eq!(feed.title.as_deref(), Some("Channel Title"));
        assert_eq!(feed.entries[0].title, "First");
    }

    #[test]
    fn atom_happy_path_prefers_alternate_link_and_published_over_updated() {
        let feed = parse(ATOM);
        assert_eq!(feed.kind, FeedKind::Atom);
        assert_eq!(feed.title.as_deref(), Some("Feed Title"));

        let entry = &feed.entries[0];
        assert_eq!(entry.guid, "urn:uuid:1");
        assert_eq!(
            entry.link.as_deref(),
            Some("https://example.com/alpha"),
            "rel=alternate wins over an earlier rel=self"
        );
        assert_eq!(
            entry.published_at.map(format_rfc3339).as_deref(),
            Some("2003-12-13T12:29:29Z"),
            "published wins over updated, normalized to UTC"
        );
    }

    #[test]
    fn atom_falls_back_to_updated_and_to_content() {
        let xml = r#"<feed xmlns="http://www.w3.org/2005/Atom">
          <entry>
            <id>e1</id><title>T</title>
            <content>Content body</content>
            <updated>2005-01-01T00:00:00Z</updated>
          </entry></feed>"#;
        let feed = parse(xml);
        let entry = &feed.entries[0];
        assert_eq!(entry.summary.as_deref(), Some("Content body"));
        assert_eq!(
            entry.published_at.map(format_rfc3339).as_deref(),
            Some("2005-01-01T00:00:00Z")
        );
    }

    #[test]
    fn atom_link_without_rel_counts_as_alternate() {
        let xml = r#"<feed xmlns="http://www.w3.org/2005/Atom">
          <entry><id>e1</id><link href="https://example.com/bare"/></entry></feed>"#;
        let feed = parse(xml);
        assert_eq!(
            feed.entries[0].link.as_deref(),
            Some("https://example.com/bare")
        );
    }

    #[test]
    fn atom_falls_back_to_first_link_when_no_alternate_exists() {
        let xml = r#"<feed xmlns="http://www.w3.org/2005/Atom">
          <entry><id>e1</id>
            <link rel="self" href="https://example.com/self"/>
            <link rel="via" href="https://example.com/via"/>
          </entry></feed>"#;
        let feed = parse(xml);
        assert_eq!(
            feed.entries[0].link.as_deref(),
            Some("https://example.com/self")
        );
    }

    #[test]
    fn missing_title_becomes_the_pinned_placeholder() {
        let xml = r#"<rss version="2.0"><channel><item>
            <guid>g1</guid><description>d</description>
          </item></channel></rss>"#;
        let feed = parse(xml);
        assert_eq!(feed.entries[0].title, UNTITLED);
    }

    #[test]
    fn parser_entities_are_unescaped_and_cdata_is_verbatim() {
        let xml = r#"<rss version="2.0"><channel><item>
            <guid>g1</guid>
            <title>Tom &amp; Jerry &lt;b&gt;</title>
            <description><![CDATA[Raw &amp; <b>bold</b>]]></description>
          </item></channel></rss>"#;
        let feed = parse(xml);
        let entry = &feed.entries[0];
        assert_eq!(entry.title, "Tom & Jerry <b>", "entities unescape");
        assert_eq!(
            entry.summary.as_deref(),
            Some("Raw &amp; <b>bold</b>"),
            "CDATA is taken verbatim, so &amp; stays literal"
        );
    }

    #[test]
    fn parser_leading_bom_is_tolerated() {
        let mut bytes = BOM.to_vec();
        bytes.extend_from_slice(RSS.as_bytes());
        let outcome = parse_feed(&bytes).expect("a BOM must not break parsing");
        assert_eq!(outcome.feed.entries.len(), 2);
    }

    #[test]
    fn unparseable_date_stores_null_but_keeps_the_entry() {
        let xml = r#"<rss version="2.0"><channel><item>
            <guid>g1</guid><title>T</title><pubDate>not a date at all</pubDate>
          </item></channel></rss>"#;
        let feed = parse(xml);
        assert_eq!(feed.entries.len(), 1, "the entry is still stored");
        assert_eq!(feed.entries[0].published_at, None);
    }

    #[test]
    fn parser_malformed_xml_is_an_error() {
        let err = parse_feed(b"<rss><channel><item></channel></rss>").unwrap_err();
        assert!(matches!(err, ParseError::Xml(_)), "got {err:?}");
    }

    #[test]
    fn unknown_root_element_is_an_error() {
        assert_eq!(
            parse_feed(b"<html><body>nope</body></html>").unwrap_err(),
            ParseError::UnknownFormat
        );
        assert_eq!(parse_feed(b"").unwrap_err(), ParseError::UnknownFormat);
    }

    #[test]
    fn non_utf8_input_is_an_error() {
        // Latin-1 encoded 'é' is not valid UTF-8, and documents must be UTF-8.
        let bytes = b"<rss version=\"2.0\"><channel><title>caf\xe9</title></channel></rss>";
        assert_eq!(parse_feed(bytes).unwrap_err(), ParseError::NotUtf8);
    }

    #[test]
    fn entries_without_identity_are_skipped_and_counted() {
        let xml = r#"<rss version="2.0"><channel>
            <item><title>No identity at all</title></item>
            <item><guid>g1</guid><title>Fine</title></item>
          </channel></rss>"#;
        let outcome = parse_feed(xml.as_bytes()).unwrap();
        assert_eq!(outcome.feed.entries.len(), 1);
        assert_eq!(outcome.skipped_without_identity, 1);
    }

    #[test]
    fn atom_without_id_is_skipped() {
        let xml = r#"<feed xmlns="http://www.w3.org/2005/Atom">
          <entry><title>No id</title></entry></feed>"#;
        let outcome = parse_feed(xml.as_bytes()).unwrap();
        assert!(outcome.feed.entries.is_empty());
        assert_eq!(outcome.skipped_without_identity, 1);
    }

    #[test]
    fn nested_markup_inside_content_contributes_its_text() {
        let xml = r#"<feed xmlns="http://www.w3.org/2005/Atom">
          <entry><id>e1</id>
            <content type="xhtml"><div xmlns="http://www.w3.org/1999/xhtml">Hello <b>world</b></div></content>
          </entry></feed>"#;
        let feed = parse(xml);
        let summary = feed.entries[0].summary.as_deref().unwrap();
        assert!(summary.contains("Hello"), "got {summary:?}");
        assert!(summary.contains("world"), "got {summary:?}");
    }

    #[test]
    fn a_nested_element_named_item_does_not_close_the_real_item() {
        // Finalizing on the element name rather than the item's depth would end
        // the item at the inner </item>, losing every field after it.
        let xml = r#"<rss version="2.0"><channel><item>
            <guid>g1</guid>
            <description><item>a literal item element inside the body</item></description>
            <title>Title after the nested item</title>
          </item></channel></rss>"#;
        let feed = parse(xml);
        assert_eq!(feed.entries.len(), 1, "exactly one entry");
        assert_eq!(
            feed.entries[0].title, "Title after the nested item",
            "fields after the nested <item> must still be captured"
        );
    }

    #[test]
    fn the_channel_image_title_is_not_mistaken_for_the_feed_title() {
        // RSS 2.0 <channel><image><title> is common and shares an element name
        // with the channel's own title.
        let xml = r#"<rss version="2.0"><channel>
            <title>Real Channel Title</title>
            <image>
              <title>Image Alt Text</title>
              <url>https://example.com/logo.png</url>
            </image>
            <item><guid>g1</guid><title>Item</title></item>
          </channel></rss>"#;
        let feed = parse(xml);
        assert_eq!(feed.title.as_deref(), Some("Real Channel Title"));
        assert_eq!(feed.entries[0].title, "Item");
    }

    #[test]
    fn an_image_title_before_the_channel_title_is_still_not_the_feed_title() {
        // First-occurrence-wins would pick the image's title if the path check
        // were not doing the work.
        let xml = r#"<rss version="2.0"><channel>
            <image><title>Image Alt Text</title></image>
            <title>Real Channel Title</title>
          </channel></rss>"#;
        assert_eq!(parse(xml).title.as_deref(), Some("Real Channel Title"));
    }

    #[test]
    fn an_atom_entry_source_does_not_hijack_the_entry_id_or_title() {
        // RFC 4287 §4.2.11: <entry><source> carries the *originating feed's*
        // id/title. Taking them as the entry's own would corrupt identity.
        let xml = r#"<feed xmlns="http://www.w3.org/2005/Atom">
            <title>Aggregator</title>
            <entry>
              <id>real-entry-id</id>
              <title>Real Entry Title</title>
              <source>
                <id>the-source-feeds-id</id>
                <title>The Source Feed</title>
              </source>
            </entry></feed>"#;
        let feed = parse(xml);
        assert_eq!(feed.entries[0].guid, "real-entry-id");
        assert_eq!(feed.entries[0].title, "Real Entry Title");
    }

    #[test]
    fn an_rss_item_source_element_is_not_the_item_title() {
        let xml = r#"<rss version="2.0"><channel><item>
            <guid>g1</guid>
            <title>Real Title</title>
            <source url="https://other.example.com/feed">Other Feed</source>
          </item></channel></rss>"#;
        let feed = parse(xml);
        assert_eq!(feed.entries[0].title, "Real Title");
    }

    #[test]
    fn a_namespaced_child_element_does_not_supply_item_fields() {
        // media:content has local name "content"; an Atom-shaped field name
        // appearing inside an RSS item must not be picked up, and its nested
        // <title> must not become the item's.
        let xml = r#"<rss version="2.0" xmlns:media="http://search.yahoo.com/mrss/">
          <channel><item>
            <guid>g1</guid>
            <title>Real Title</title>
            <media:group><title>Media Title</title></media:group>
          </item></channel></rss>"#;
        let feed = parse(xml);
        assert_eq!(feed.entries[0].title, "Real Title");
    }

    #[test]
    fn a_self_closing_atom_link_in_an_rss_item_does_not_destroy_the_entry() {
        // <atom:link rel="self"/> is near-universal in real RSS. Matching on the
        // local name alone made it Field::Link; being self-closing it captured
        // "", first-occurrence-wins locked the slot, the real <link> was
        // ignored, non_empty turned "" back into None, identity fell through,
        // and the entry vanished with only a WARN.
        let xml = r#"<rss version="2.0" xmlns:atom="http://www.w3.org/2005/Atom">
          <channel><item>
            <atom:link rel="self" href="https://example.com/self"/>
            <link>https://example.com/real</link>
            <title>T</title>
          </item></channel></rss>"#;
        let outcome = parse_feed(xml.as_bytes()).unwrap();
        assert_eq!(
            outcome.skipped_without_identity, 0,
            "the entry must survive"
        );
        assert_eq!(outcome.feed.entries.len(), 1);
        assert_eq!(
            outcome.feed.entries[0].link.as_deref(),
            Some("https://example.com/real"),
            "the RSS <link> wins; the foreign atom:link is not a link field"
        );
        // No guid, so identity falls back to the real link.
        assert_eq!(outcome.feed.entries[0].guid, "https://example.com/real");
    }

    #[test]
    fn a_foreign_namespace_element_does_not_hijack_a_field() {
        // media:description before the real description would win under
        // first-occurrence-wins if the namespace were ignored.
        let xml = r#"<rss version="2.0" xmlns:media="http://search.yahoo.com/mrss/">
          <channel><item>
            <guid>g1</guid>
            <media:description>media blurb</media:description>
            <description>real description</description>
            <media:title>media title</media:title>
            <title>real title</title>
          </item></channel></rss>"#;
        let feed = parse(xml);
        assert_eq!(feed.entries[0].summary.as_deref(), Some("real description"));
        assert_eq!(feed.entries[0].title, "real title");
    }

    #[test]
    fn an_atom_feed_using_a_prefix_still_parses() {
        // The native namespace is taken from the root, so prefixed Atom works
        // exactly like default-namespaced Atom.
        let xml = r#"<atom:feed xmlns:atom="http://www.w3.org/2005/Atom">
            <atom:title>Prefixed Feed</atom:title>
            <atom:entry>
              <atom:id>e1</atom:id>
              <atom:title>Prefixed Entry</atom:title>
              <atom:link rel="alternate" href="https://example.com/1"/>
              <atom:updated>2020-01-01T00:00:00Z</atom:updated>
            </atom:entry>
          </atom:feed>"#;
        let feed = parse(xml);
        assert_eq!(feed.title.as_deref(), Some("Prefixed Feed"));
        assert_eq!(feed.entries.len(), 1);
        assert_eq!(feed.entries[0].guid, "e1");
        assert_eq!(feed.entries[0].title, "Prefixed Entry");
        assert_eq!(
            feed.entries[0].link.as_deref(),
            Some("https://example.com/1")
        );
    }

    #[test]
    fn an_empty_element_does_not_lock_out_the_real_value() {
        // Storing "" would satisfy first-occurrence-wins forever, and finish()
        // would then map it back to absent — so the real value could never win.
        let xml = r#"<rss version="2.0"><channel><item>
            <guid>g1</guid>
            <title></title>
            <title>Real Title</title>
            <link/>
            <link>https://example.com/real</link>
            <description></description>
            <description>Real summary</description>
          </item></channel></rss>"#;
        let feed = parse(xml);
        let entry = &feed.entries[0];
        assert_eq!(entry.title, "Real Title");
        assert_eq!(entry.link.as_deref(), Some("https://example.com/real"));
        assert_eq!(entry.summary.as_deref(), Some("Real summary"));
    }

    #[test]
    fn common_html_entities_do_not_destroy_the_feed() {
        // A single &nbsp; used to fail the whole document, taking every entry
        // with it — and real feeds are full of them.
        let xml = r#"<rss version="2.0"><channel><item>
            <guid>g1</guid>
            <title>Q1&nbsp;2024 results &mdash; up 5&percnt;</title>
            <description>Alice&rsquo;s take&hellip;</description>
          </item>
          <item><guid>g2</guid><title>Second survives too</title></item>
          </channel></rss>"#;
        let feed = parse(xml);
        assert_eq!(feed.entries.len(), 2, "no entry may be lost to an entity");
        assert!(
            feed.entries[0].title.contains("2024 results"),
            "got {:?}",
            feed.entries[0].title
        );
        assert!(
            feed.entries[0].title.contains('—'),
            "&mdash; should resolve"
        );
        assert!(
            feed.entries[0]
                .summary
                .as_deref()
                .unwrap()
                .contains('\u{2019}'),
            "&rsquo; should resolve"
        );
    }

    #[test]
    fn empty_feed_parses_to_zero_entries() {
        let feed = parse(r#"<rss version="2.0"><channel><title>Empty</title></channel></rss>"#);
        assert!(feed.entries.is_empty());
        assert_eq!(feed.title.as_deref(), Some("Empty"));
    }

#[test]
fn an_entity_nothing_defines_inside_a_field_is_an_error() {
    let xml = r#"<rss version="2.0"><channel><item><guid>g1</guid><title>a &bogus; b</title></item></channel></rss>"#;
    assert!(matches!(parse_feed(xml.as_bytes()), Err(ParseError::Xml(_))));
}

#[test]
fn an_entity_outside_any_field_is_ignored() {
    let xml = r#"<rss version="2.0"><channel><copyright>&bogus;</copyright><item><guid>g1</guid></item></channel></rss>"#;
    assert_eq!(parse(xml).entries.len(), 1);
}

#[test]
fn numeric_references_resolve_in_fields() {
    let xml = r#"<rss version="2.0"><channel><item><guid>g1</guid><title>caf&#233; &#x41;</title></item></channel></rss>"#;
    assert_eq!(parse(xml).entries[0].title, "café A");
}

#[test]
fn parse_error_messages() {
    assert_eq!(ParseError::NotUtf8.message(), "feed is not valid UTF-8");
    assert_eq!(ParseError::Xml("x".to_string()).message(), "malformed XML: x");
    assert_eq!(
        ParseError::UnknownFormat.message(),
        "unrecognized feed format: expected an RSS <rss> or an Atom <feed> root element"
    );
}

#[test]
fn the_feed_title_keeps_the_first_non_blank_value() {
    let xml = r#"<feed xmlns="http://www.w3.org/2005/Atom"><title>  </title><title> Real </title></feed>"#;
    assert_eq!(parse(xml).title.as_deref(), Some("Real"));
}

#[test]
fn references_resolve_as_quick_xml_resolves_them() {
    assert_eq!(resolve_reference("#x41"), Some("A".to_string()));
    assert_eq!(resolve_reference("#65"), Some("A".to_string()));
    assert_eq!(resolve_reference("#x1F600"), Some("\u{1F600}".to_string()));
    assert_eq!(resolve_reference("#0"), None);
    assert_eq!(resolve_reference("#x"), None);
    assert_eq!(resolve_reference("#"), None);
    assert_eq!(resolve_reference("#+5"), None);
    assert_eq!(resolve_reference("#xD800"), None);
    assert_eq!(resolve_reference("#4294967296"), None);
    assert_eq!(resolve_reference("amp"), Some("&".to_string()));
    assert_eq!(resolve_reference("lt"), Some("<".to_string()));
    assert_eq!(resolve_reference("quot"), Some("\"".to_string()));
    assert_eq!(resolve_reference("nbsp"), None);
}

#[test]
fn non_ascii_element_names_do_not_disturb_attribute_reading() {
    let doc = "<feed xmlns=\"http://www.w3.org/2005/Atom\" xmlns:é=\"urn:x\"><title>T</title>\
<entry><id>e1</id><é:link href=\"http://other/\"/><link href=\"http://a/1\"/></entry></feed>";
    let out = parse_feed(doc.as_bytes()).expect("document should parse");
    assert_eq!(out.feed.entries.len(), 1);
    assert_eq!(out.feed.entries[0].link.as_deref(), Some("http://a/1"));
}
