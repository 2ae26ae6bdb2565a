use feedhub::fileserve::{etag_for, mime_for, safe_path};
use feedhub::fixtures::{corpus, get};

#[test]
fn corpus_covers_every_category_the_spec_requires() {
    assert!(get("rss-basic.rss").is_some(), "valid RSS 2.0");
    assert!(get("atom-basic.atom").is_some(), "valid Atom");
    assert!(get("dates-edge.rss").is_some(), "edge-case dates");
    assert!(get("cdata-entities.rss").is_some(), "CDATA / entities");
    assert!(get("malformed.xml").is_some(), "malformed XML");
}

#[test]
fn etag_stable_and_content_derived() {
    assert_eq!(etag_for(b"abc"), etag_for(b"abc"));
    assert_ne!(etag_for(b"abc"), etag_for(b"abd"));
}

#[test]
fn mime_by_ext() {
    assert_eq!(mime_for("a.xml"), "application/xml; charset=utf-8");
    assert_eq!(mime_for("a.atom"), "application/atom+xml; charset=utf-8");
}

#[test]
fn rejects_traversal() {
    assert!(safe_path("/srv", "/../etc/passwd").is_none());
    assert!(safe_path("/srv", "/feed.xml").is_some());
}

#[test]
fn every_valid_fixture_parses_and_the_broken_ones_do_not() {
    for f in corpus() {
        let result = feedhub::parser::parse_feed(f.body.as_bytes());
        if matches!(f.name, "malformed.xml" | "truncated.xml") {
            assert!(result.is_err(), "{} must not parse", f.name);
        } else {
            assert!(result.is_ok(), "{} must parse: {:?}", f.name, result.err());
        }
    }
}

#[test]
fn mime_follows_the_corpus_readme_table() {
    assert_eq!(mime_for("README.md"), "text/markdown; charset=utf-8");
    assert_eq!(mime_for("feed.rss"), "application/rss+xml; charset=utf-8");
    assert_eq!(mime_for("notes.txt"), "text/plain; charset=utf-8");
    assert_eq!(mime_for("data.json"), "application/octet-stream");
    assert_eq!(mime_for("index.html"), "application/octet-stream");
    assert_eq!(mime_for("noext"), "application/octet-stream");
}
