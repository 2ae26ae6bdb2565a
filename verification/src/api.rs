//! The JSON shapes exchanged over the REST API.
//!
//! All timestamps are strings in the storage format.
use vstd::prelude::*;
use crate::strs::{eq_chars, str_chars};

pub use crate::model::{Entry, Feed};

verus! {

/// Response of `GET /api/entries`.
#[derive(Clone, Debug)]
pub struct EntriesPage {
    /// Number of matches ignoring `limit`/`offset`.
    pub total: i64,
    pub items: Vec<Entry>,
}

/// Outcome of refreshing a single feed.
#[derive(Clone, Debug)]
pub struct RefreshResult {
    pub feed_id: i64,
    /// `"ok"` or `"error"`.
    pub status: String,
    /// Entries stored for the first time by this fetch.
    pub new_entries: i64,
    /// Known entries whose contents this fetch updated in place.
    pub updated_entries: i64,
    /// True when the server answered `304 Not Modified`.
    pub not_modified: bool,
    /// Set when `status` is `"error"`.
    pub error: Option<String>,
}

impl RefreshResult {
    /// The documented shape of a report: the status is `"ok"` or `"error"`,
    /// and the error message is present exactly when it is `"error"`.
    pub open spec fn wf(&self) -> bool {
        &&& (self.status@ == "ok"@ || self.status@ == "error"@)
        &&& (self.error is Some <==> self.status@ == "error"@)
    }

    /// Whether the refresh succeeded.
    pub fn is_ok(&self) -> (r: bool)
        ensures
            r == (self.status@ == seq!['o', 'k']),
    {
        let v = str_chars(self.status.as_str());
        eq_chars(v.as_slice(), &['o', 'k'])
    }
}

/// The body of every error response: `{"error": "<message>"}`.
#[derive(Clone, Debug)]
pub struct ErrorBody {
    pub error: String,
}

/// Body of `POST /api/feeds`.
#[derive(Clone, Debug)]
pub struct AddFeedRequest {
    pub url: String,
}

/// Default and maximum for `GET /api/entries?limit=`.
pub const DEFAULT_LIMIT: i64 = 50;

pub const MAX_LIMIT: i64 = 500;

} // verus!
