use feedhub::ctl::{
    added_line, api_url, entries_params, entry_listing, feed_line, feed_list_lines, feed_path, refresh_line, refresh_path,
    removed_line, EntrySummary, FeedSummary, RefreshSummary,
};

fn feed(id: i64, title: Option<&str>, count: i64, error: Option<&str>) -> FeedSummary {
    FeedSummary {
        id: Some(id),
        url: Some("https://example.com/f.rss".into()),
        title: title.map(|t| t.into()),
        entry_count: Some(count),
        last_error: error.map(|e| e.into()),
    }
}

#[test]
fn feed_line_shows_id_title_url_and_count() {
    assert_eq!(feed_line(&feed(3, Some("Blog"), 12, None)), "[3] Blog <https://example.com/f.rss> (12 entries)");
}

#[test]
fn feed_line_defaults_and_error() {
    assert_eq!(
        feed_line(&feed(1, None, 0, Some("HTTP 500"))),
        "[1] (untitled) <https://example.com/f.rss> (0 entries) ERROR: HTTP 500"
    );
    let empty = FeedSummary { id: None, url: None, title: None, entry_count: None, last_error: None };
    assert_eq!(feed_line(&empty), "[0] (untitled) <> (0 entries)");
}

#[test]
fn an_empty_or_missing_feed_list_says_so() {
    assert_eq!(feed_list_lines(None), vec!["(no feeds)".to_string()]);
    assert_eq!(feed_list_lines(Some(&Vec::new())), vec!["(no feeds)".to_string()]);
    let list = vec![feed(1, Some("A"), 1, None), feed(2, Some("B"), 2, None)];
    assert_eq!(
        feed_list_lines(Some(&list)),
        vec![
            "[ID] TITLE <URL> (ENTRIES) ERROR".to_string(),
            "[1] A <https://example.com/f.rss> (1 entries)".to_string(),
            "[2] B <https://example.com/f.rss> (2 entries)".to_string()
        ]
    );
}

fn refresh(status: Option<&str>, new: Option<i64>, id: Option<i64>, nm: Option<bool>, error: Option<&str>) -> RefreshSummary {
    RefreshSummary {
        status: status.map(|s| s.into()),
        new_entries: new,
        feed_id: id,
        not_modified: nm,
        error: error.map(|e| e.into()),
    }
}

#[test]
fn refresh_lines() {
    assert_eq!(refresh_line(&refresh(Some("ok"), Some(3), Some(1), None, None)), "feed 1: 3 new entries");
    assert_eq!(refresh_line(&refresh(Some("ok"), Some(0), Some(2), Some(true), None)), "feed 2: not modified");
    assert_eq!(refresh_line(&refresh(Some("ok"), None, None, Some(false), None)), "feed: 0 new entries");
    assert_eq!(
        refresh_line(&refresh(Some("error"), Some(0), Some(9), None, Some("HTTP 404"))),
        "feed 9: error: HTTP 404"
    );
    assert_eq!(refresh_line(&refresh(None, None, None, None, None)), "feed: error: unknown error");
}

#[test]
fn entry_listing_lines() {
    let items = vec![
        EntrySummary {
            id: Some(5),
            title: Some("Hello".into()),
            published_at: Some("2024-01-02T03:04:05Z".into()),
            link: Some("https://example.com/5".into()),
        },
        EntrySummary { id: Some(6), title: None, published_at: None, link: Some(String::new()) },
    ];
    assert_eq!(
        entry_listing(Some(10), &items),
        vec![
            "Showing 2 of 10".to_string(),
            "[5] 2024-01-02T03:04:05Z  Hello".to_string(),
            "      https://example.com/5".to_string(),
            "[6] (no date)  (untitled)".to_string(),
        ]
    );
    assert_eq!(entry_listing(None, &Vec::new()), vec!["Showing 0 of 0".to_string()]);
    let one = vec![EntrySummary { id: Some(2), title: Some("Second post".into()), published_at: None, link: None }];
    assert_eq!(entry_listing(Some(1), &one)[0], "Showing 1 of 1");
}

#[test]
fn entries_params_in_order_and_only_when_given() {
    let p = entries_params(Some(3), &None, &Some("2024-01-01T00:00:00Z".into()), &Some("rust".into()), Some(10), None);
    assert_eq!(
        p,
        vec![
            ("feed_id".to_string(), "3".to_string()),
            ("until".to_string(), "2024-01-01T00:00:00Z".to_string()),
            ("q".to_string(), "rust".to_string()),
            ("limit".to_string(), "10".to_string()),
        ]
    );
    assert!(entries_params(None, &None, &None, &None, None, None).is_empty());
}

#[test]
fn urls_and_paths() {
    assert_eq!(api_url("http://127.0.0.1:8600/", "/api/feeds"), "http://127.0.0.1:8600/api/feeds");
    assert_eq!(api_url("http://h//", "/api/refresh"), "http://h/api/refresh");
    assert_eq!(api_url("http://h", "/x"), "http://h/x");
    assert_eq!(feed_path(12), "/api/feeds/12");
    assert_eq!(refresh_path(Some(-1)), "/api/feeds/-1/refresh");
    assert_eq!(refresh_path(None), "/api/refresh");
    assert_eq!(removed_line(4), "Removed feed 4");
}

#[test]
fn added_line_names_the_feed() {
    assert_eq!(added_line(&feed(1, None, 0, None)), "Added feed 1 <https://example.com/f.rss>");
}
