use feedhub::httpwire::{dec_text, file_response, header_line, not_modified, request_line, request_target, simple};

#[test]
fn decimal_text() {
    assert_eq!(dec_text(0).iter().collect::<String>(), "0");
    assert_eq!(dec_text(405).iter().collect::<String>(), "405");
    assert_eq!(dec_text(18446744073709551615).iter().collect::<String>(), "18446744073709551615");
}

#[test]
fn simple_response_text() {
    assert_eq!(
        simple(404, "Not Found", "not found"),
        "HTTP/1.1 404 Not Found\r\nContent-Type: text/plain; charset=utf-8\r\nContent-Length: 9\r\nConnection: close\r\n\r\nnot found"
    );
    // Content-Length counts bytes, not characters.
    assert!(simple(200, "OK", "é").contains("Content-Length: 2\r\n"));
}

#[test]
fn not_modified_response_text() {
    assert_eq!(
        not_modified("\"abc\"", Some("Tue, 10 Jun 2003 04:00:00 GMT")),
        "HTTP/1.1 304 Not Modified\r\nETag: \"abc\"\r\nConnection: close\r\nLast-Modified: Tue, 10 Jun 2003 04:00:00 GMT\r\n\r\n"
    );
    assert_eq!(not_modified("\"x\"", None), "HTTP/1.1 304 Not Modified\r\nETag: \"x\"\r\nConnection: close\r\n\r\n");
}

#[test]
fn request_targets() {
    assert_eq!(request_target("GET", "/srv", "/rss.xml"), Ok("/srv/rss.xml".to_string()));
    assert_eq!(
        request_target("POST", "/srv", "/rss.xml"),
        Err(simple(405, "Method Not Allowed", "method not allowed"))
    );
    assert_eq!(request_target("HEAD", "/srv", "/../etc/passwd"), Err(simple(403, "Forbidden", "forbidden")));
}

#[test]
fn file_responses() {
    let body = b"<rss/>";
    let get = file_response("GET", "/srv/a.xml", body, None, None, None);
    let text = String::from_utf8(get.clone()).unwrap();
    assert!(text.starts_with("HTTP/1.1 200 OK\r\nContent-Type: application/xml; charset=utf-8\r\nContent-Length: 6\r\nETag: \""));
    assert!(text.ends_with("\r\n\r\n<rss/>"));
    let head = file_response("HEAD", "/srv/a.xml", body, None, None, None);
    assert_eq!(head.len() + body.len(), get.len());
    let etag = feedhub::fileserve::etag_for(body);
    let cond = file_response("GET", "/srv/a.xml", body, None, Some(&etag), None);
    assert_eq!(cond, not_modified(&etag, None).into_bytes());
}

#[test]
fn request_and_header_lines() {
    let (m, p) = request_line("GET /feed.xml?x=1#frag HTTP/1.1\r\n");
    assert_eq!((m.as_str(), p.as_str()), ("GET", "/feed.xml"));
    let (m, p) = request_line("");
    assert_eq!((m.as_str(), p.as_str()), ("", ""));
    assert_eq!(
        header_line("If-None-Match:  \"abc\" \r\n"),
        Some(("if-none-match".to_string(), "\"abc\"".to_string()))
    );
    assert_eq!(header_line("garbage\r\n"), None);
}
