//! The API's data-transfer types and the refresh outcome of the daemon.
use vstd::prelude::*;

verus! {

/// A feed as exposed by the API.
#[derive(Clone, Debug)]
pub struct FeedDto {
    pub id: i64,
    pub url: String,
    pub title: Option<String>,
    pub last_fetched_at: Option<String>,
    pub last_error: Option<String>,
    pub entry_count: i64,
}

/// An entry as exposed by the API.
#[derive(Clone, Debug)]
pub struct EntryDto {
    pub id: i64,
    pub feed_id: i64,
    pub guid: String,
    pub title: String,
    pub link: Option<String>,
    pub summary: Option<String>,
    pub published_at: Option<String>,
    pub fetched_at: String,
}

/// Internal feed row including conditional-GET bookkeeping.
#[derive(Clone, Debug)]
pub struct FeedRow {
    pub id: i64,
    pub url: String,
    pub etag: Option<String>,
    pub last_modified: Option<String>,
}

/// Result of refreshing a single feed (also the API refresh payload).
#[derive(Clone, Debug)]
pub struct RefreshResult {
    pub feed_id: i64,
    pub status: &'static str,
    pub new_entries: i64,
    pub not_modified: Option<bool>,
    pub error: Option<String>,
}

impl RefreshResult {
    /// A fetch that stored `new_entries` new entries.
    pub fn ok(feed_id: i64, new_entries: i64) -> (r: Self)
        ensures
            r.feed_id == feed_id,
            r.status@ == "ok"@,
            r.new_entries == new_entries,
            r.not_modified is None,
            r.error is None,
    {
        RefreshResult { feed_id, status: "ok", new_entries, not_modified: None, error: None }
    }

    /// A fetch answered `304 Not Modified`.
    pub fn not_modified(feed_id: i64) -> (r: Self)
        ensures
            r.feed_id == feed_id,
            r.status@ == "ok"@,
            r.new_entries == 0,
            r.not_modified == Some(true),
            r.error is None,
    {
        RefreshResult { feed_id, status: "ok", new_entries: 0, not_modified: Some(true), error: None }
    }

    /// A failed fetch with its message.
    pub fn error(feed_id: i64, msg: String) -> (r: Self)
        ensures
            r.feed_id == feed_id,
            r.status@ == "error"@,
            r.new_entries == 0,
            r.not_modified is None,
            r.error == Some(msg),
    {
        RefreshResult { feed_id, status: "error", new_entries: 0, not_modified: None, error: Some(msg) }
    }
}

} // verus!
