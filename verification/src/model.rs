//! Common types shared by the feedhub binaries: stored feeds and entries,
//! refresh results and the entries page.
use vstd::prelude::*;
use crate::instant::Instant;
use crate::text::opt_view;

verus! {

/// Which grammar a document was parsed as.
#[derive(Clone, Copy, Debug, PartialEq, Eq, Structural)]
pub enum FeedKind {
    Rss,
    Atom,
}

/// A registered feed, as stored and as returned by the API.
#[derive(Clone, Debug)]
pub struct Feed {
    pub id: i64,
    pub url: String,
    /// `None` until the first successful fetch that carried a title.
    pub title: Option<String>,
    pub last_fetched_at: Option<String>,
    /// `None` when the most recent fetch succeeded.
    pub last_error: Option<String>,
    pub entry_count: i64,
}

pub struct FeedV {
    pub id: i64,
    pub url: Seq<char>,
    pub title: Option<Seq<char>>,
    pub last_fetched_at: Option<Seq<char>>,
    pub last_error: Option<Seq<char>>,
    pub entry_count: i64,
}

impl View for Feed {
    type V = FeedV;

    open spec fn view(&self) -> FeedV {
        FeedV {
            id: self.id,
            url: self.url@,
            title: opt_view(self.title),
            last_fetched_at: opt_view(self.last_fetched_at),
            last_error: opt_view(self.last_error),
            entry_count: self.entry_count,
        }
    }
}

/// A stored entry, as returned by the API.
#[derive(Clone, Debug)]
pub struct Entry {
    pub id: i64,
    pub feed_id: i64,
    pub guid: String,
    pub title: String,
    pub link: Option<String>,
    pub summary: Option<String>,
    pub published_at: Option<String>,
    pub fetched_at: String,
}

pub struct EntryV {
    pub id: i64,
    pub feed_id: i64,
    pub guid: Seq<char>,
    pub title: Seq<char>,
    pub link: Option<Seq<char>>,
    pub summary: Option<Seq<char>>,
    pub published_at: Option<Seq<char>>,
    pub fetched_at: Seq<char>,
}

impl View for Entry {
    type V = EntryV;

    open spec fn view(&self) -> EntryV {
        EntryV {
            id: self.id,
            feed_id: self.feed_id,
            guid: self.guid@,
            title: self.title@,
            link: opt_view(self.link),
            summary: opt_view(self.summary),
            published_at: opt_view(self.published_at),
            fetched_at: self.fetched_at@,
        }
    }
}

/// Result of refreshing a single feed.
#[derive(Clone, Debug)]
pub struct RefreshResult {
    pub feed_id: i64,
    /// `"ok"` or `"error"`.
    pub status: String,
    /// Entries newly inserted by this fetch; 0 for a 304 and for errors.
    pub new_entries: usize,
    /// Entries that already existed and were updated in place.
    pub updated_entries: Option<usize>,
    /// True when the origin answered `304 Not Modified`.
    pub not_modified: Option<bool>,
    /// Present only when `status == "error"`.
    pub error: Option<String>,
}

impl RefreshResult {
    /// A successful refresh.
    pub fn ok(feed_id: i64, new_entries: usize, updated_entries: usize, not_modified: bool) -> (r: Self)
        ensures
            r.feed_id == feed_id,
            r.status@ == "ok"@,
            r.new_entries == new_entries,
            r.updated_entries == Some(updated_entries),
            r.not_modified == Some(not_modified),
            r.error is None,
    {
        RefreshResult {
            feed_id,
            status: "ok".to_owned(),
            new_entries,
            updated_entries: Some(updated_entries),
            not_modified: Some(not_modified),
            error: None,
        }
    }

    /// A failed refresh with its message.
    pub fn error(feed_id: i64, message: String) -> (r: Self)
        ensures
            r.feed_id == feed_id,
            r.status@ == "error"@,
            r.new_entries == 0,
            r.updated_entries is None,
            r.not_modified is None,
            r.error == Some(message),
    {
        RefreshResult {
            feed_id,
            status: "error".to_owned(),
            new_entries: 0,
            updated_entries: None,
            not_modified: None,
            error: Some(message),
        }
    }
}

/// The `{"total": N, "items": [...]}` envelope of the entries listing.
#[derive(Clone, Debug)]
pub struct EntryPage {
    /// Match count ignoring `limit`/`offset`.
    pub total: i64,
    pub items: Vec<Entry>,
}

/// One item/entry lifted out of a feed document, before it reaches storage.
#[derive(Clone, Debug)]
pub struct ParsedEntry {
    /// Dedupe identity: RSS `guid` (or `link`), Atom `id`.
    pub guid: String,
    pub title: String,
    pub link: Option<String>,
    pub summary: Option<String>,
    /// `None` when the source date was missing or unparseable; never a
    /// substituted fetch time.
    pub published_at: Option<Instant>,
}

pub struct ParsedEntryV {
    pub guid: Seq<char>,
    pub title: Seq<char>,
    pub link: Option<Seq<char>>,
    pub summary: Option<Seq<char>>,
    pub published_at: Option<Instant>,
}

impl View for ParsedEntry {
    type V = ParsedEntryV;

    open spec fn view(&self) -> ParsedEntryV {
        ParsedEntryV {
            guid: self.guid@,
            title: self.title@,
            link: opt_view(self.link),
            summary: opt_view(self.summary),
            published_at: self.published_at,
        }
    }
}

pub open spec fn parsed_entries_view(v: Seq<ParsedEntry>) -> Seq<ParsedEntryV> {
    v.map_values(|e: ParsedEntry| e@)
}

/// A parsed feed document.
#[derive(Clone, Debug)]
pub struct ParsedFeed {
    pub kind: FeedKind,
    pub title: Option<String>,
    pub entries: Vec<ParsedEntry>,
}

pub struct ParsedFeedV {
    pub kind: FeedKind,
    pub title: Option<Seq<char>>,
    pub entries: Seq<ParsedEntryV>,
}

impl View for ParsedFeed {
    type V = ParsedFeedV;

    open spec fn view(&self) -> ParsedFeedV {
        ParsedFeedV { kind: self.kind, title: opt_view(self.title), entries: parsed_entries_view(self.entries@) }
    }
}

} // verus!
