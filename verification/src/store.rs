//! Feed storage: feeds, entries, dedupe/update, and the entries query.
//!
//! The store keeps feeds and entries as rows ordered by id. Ids are handed
//! out in increasing order and never reused; a feed's URL is unique; an
//! entry is identified by its feed and guid; deleting a feed deletes its
//! entries.
use vstd::prelude::*;
use crate::date::{date_of, date_overflows, parse_date};
use crate::feed::{ItemV, ParsedItem};
use crate::instant::{format_z, to_millis, z_text, Instant};
use crate::model::{Entry, EntryV, Feed, FeedV};
use crate::strs::{
    utf8_len, utf8_width, utf8_longer_than, contains_exec, contains_seq, has_prefix, lower, lower_vec, starts_with_exec, str_chars,
    string_of, trim, trim_vec,
};
use crate::text::opt_view;

verus! {

/// Cached conditional-GET validators for a feed.
#[derive(Clone, Debug, Default)]
pub struct FeedFetchInfo {
    pub url: String,
    pub etag: Option<String>,
    pub last_modified: Option<String>,
}

/// Filter for [`Store::query_entries`].
#[derive(Clone, Debug, Default)]
pub struct EntryQuery {
    pub feed_id: Option<i64>,
    pub since: Option<String>,
    pub until: Option<String>,
    pub q: Option<String>,
    pub limit: i64,
    pub offset: i64,
}

impl EntryQuery {
    /// No filters, the first 50 entries.
    pub fn new() -> (r: EntryQuery)
        ensures
            r.feed_id is None,
            r.since is None,
            r.until is None,
            r.q is None,
            r.limit == 50,
            r.offset == 0,
    {
        EntryQuery { feed_id: None, since: None, until: None, q: None, limit: 50, offset: 0 }
    }
}

/// Why a store operation was refused.
#[derive(Clone, Debug)]
pub enum StoreError {
    /// The URL is not an `http://` or `https://` URL with something after
    /// the scheme.
    InvalidUrl,
    /// The URL is already registered.
    Duplicate,
    /// No feed has the given id.
    NotFound,
    /// A query bound could not be read as a date.
    Parse(String),
    /// The ids are used up.
    Full,
}

pub enum StoreErrorV {
    InvalidUrl,
    Duplicate,
    NotFound,
    Parse(Seq<char>),
    Full,
}

impl View for StoreError {
    type V = StoreErrorV;

    open spec fn view(&self) -> StoreErrorV {
        match self {
            StoreError::InvalidUrl => StoreErrorV::InvalidUrl,
            StoreError::Duplicate => StoreErrorV::Duplicate,
            StoreError::NotFound => StoreErrorV::NotFound,
            StoreError::Parse(m) => StoreErrorV::Parse(m@),
            StoreError::Full => StoreErrorV::Full,
        }
    }
}

// ---------------------------------------------------------------- model

pub struct StoredFeed {
    pub id: i64,
    pub url: Seq<char>,
    pub title: Option<Seq<char>>,
    pub last_fetched_at: Option<Seq<char>>,
    pub last_error: Option<Seq<char>>,
    pub etag: Option<Seq<char>>,
    pub last_modified: Option<Seq<char>>,
}

pub struct StoredEntry {
    pub id: i64,
    pub feed_id: i64,
    pub guid: Seq<char>,
    pub title: Seq<char>,
    pub link: Option<Seq<char>>,
    pub summary: Option<Seq<char>>,
    pub published_at: Option<Seq<char>>,
    pub published_ms: Option<i64>,
    pub fetched_at: Seq<char>,
}

/// The rows of a store, in id order, and the next ids to hand out.
pub struct StoreV {
    pub feeds: Seq<StoredFeed>,
    pub entries: Seq<StoredEntry>,
    pub next_feed_id: i64,
    pub next_entry_id: i64,
}

pub open spec fn http_prefix() -> Seq<char> {
    seq!['h', 't', 't', 'p', ':', '/', '/']
}

pub open spec fn https_prefix() -> Seq<char> {
    seq!['h', 't', 't', 'p', 's', ':', '/', '/']
}

/// An `http://` or `https://` URL longer than `https://`, after trimming.
pub open spec fn valid_http_url(url: Seq<char>) -> bool {
    let u = trim(url);
    (has_prefix(u, http_prefix()) || has_prefix(u, https_prefix())) && utf8_len(u) > 8
}

pub open spec fn has_feed(v: StoreV, id: i64) -> bool {
    exists|i: int| 0 <= i < v.feeds.len() && v.feeds[i].id == id
}

/// The position of the feed with the given id.
pub open spec fn feed_pos(v: StoreV, id: i64) -> int {
    choose|i: int| 0 <= i < v.feeds.len() && v.feeds[i].id == id
}

pub open spec fn url_taken(v: StoreV, url: Seq<char>) -> bool {
    exists|i: int| 0 <= i < v.feeds.len() && v.feeds[i].url == url
}

pub open spec fn has_entry(v: StoreV, feed_id: i64, guid: Seq<char>) -> bool {
    exists|i: int| 0 <= i < v.entries.len() && v.entries[i].feed_id == feed_id && v.entries[i].guid == guid
}

/// The position of the entry with the given feed and guid.
pub open spec fn entry_pos(v: StoreV, feed_id: i64, guid: Seq<char>) -> int {
    choose|i: int| 0 <= i < v.entries.len() && v.entries[i].feed_id == feed_id && v.entries[i].guid == guid
}

/// Ids increase along the rows and stay below the next id to hand out;
/// URLs are unique; (feed, guid) is unique; every entry's feed exists.
pub open spec fn store_wf(v: StoreV) -> bool {
    &&& 1 <= v.next_feed_id
    &&& 1 <= v.next_entry_id
    &&& v.feeds.len() < v.next_feed_id
    &&& v.entries.len() < v.next_entry_id
    &&& forall|i: int, j: int| 0 <= i < j < v.feeds.len() ==> v.feeds[i].id < v.feeds[j].id
    &&& forall|i: int| 0 <= i < v.feeds.len() ==> 1 <= #[trigger] v.feeds[i].id < v.next_feed_id
    &&& forall|i: int, j: int| 0 <= i < j < v.entries.len() ==> v.entries[i].id < v.entries[j].id
    &&& forall|i: int| 0 <= i < v.entries.len() ==> 1 <= #[trigger] v.entries[i].id < v.next_entry_id
    &&& forall|i: int, j: int|
        #![trigger v.feeds[i], v.feeds[j]]
        0 <= i < j < v.feeds.len() ==> v.feeds[i].url != v.feeds[j].url
    &&& forall|i: int, j: int|
        #![trigger v.entries[i], v.entries[j]]
        0 <= i < j < v.entries.len() ==> !(v.entries[i].feed_id == v.entries[j].feed_id
            && v.entries[i].guid == v.entries[j].guid)
    &&& forall|i: int| 0 <= i < v.entries.len() ==> has_feed(v, #[trigger] v.entries[i].feed_id)
}

/// Number of entries of a feed.
pub open spec fn count_entries(es: Seq<StoredEntry>, feed_id: i64) -> int
    decreases es.len(),
{
    if es.len() == 0 {
        0
    } else {
        count_entries(es.drop_last(), feed_id) + if es.last().feed_id == feed_id {
            1int
        } else {
            0int
        }
    }
}

/// A feed row as returned, with its entry count.
pub open spec fn feed_out(f: StoredFeed, es: Seq<StoredEntry>) -> FeedV {
    FeedV {
        id: f.id,
        url: f.url,
        title: f.title,
        last_fetched_at: f.last_fetched_at,
        last_error: f.last_error,
        entry_count: count_entries(es, f.id) as i64,
    }
}

pub open spec fn entry_out(e: StoredEntry) -> EntryV {
    EntryV {
        id: e.id,
        feed_id: e.feed_id,
        guid: e.guid,
        title: e.title,
        link: e.link,
        summary: e.summary,
        published_at: e.published_at,
        fetched_at: e.fetched_at,
    }
}

/// The stored text and millisecond key of a publication instant.
pub open spec fn published_text(p: Option<Instant>) -> Option<Seq<char>> {
    match p {
        Some(i) => Some(z_text(i)),
        None => None,
    }
}

pub open spec fn published_key(p: Option<Instant>) -> Option<i64> {
    match p {
        Some(i) => Some(i.millis() as i64),
        None => None,
    }
}

// ---------------------------------------------------------------- query model

/// Whether an entry passes the query's filters: its feed, the half-open
/// window `[since, until)` on its publication time (undated entries fail
/// any bound), and an ASCII-case-insensitive substring of its title.
pub open spec fn entry_matches(
    e: StoredEntry,
    feed_id: Option<i64>,
    since: Option<int>,
    until: Option<int>,
    q: Option<Seq<char>>,
) -> bool {
    &&& (feed_id matches Some(f) ==> e.feed_id == f)
    &&& (since matches Some(s) ==> (e.published_ms matches Some(ms) && ms >= s))
    &&& (until matches Some(u) ==> (e.published_ms matches Some(ms) && ms < u))
    &&& (q matches Some(t) ==> contains_seq(lower(e.title), lower(t)))
}

/// Positions (below `n`) of the matching entries, in id order.
pub open spec fn match_positions(
    es: Seq<StoredEntry>,
    feed_id: Option<i64>,
    since: Option<int>,
    until: Option<int>,
    q: Option<Seq<char>>,
    n: int,
) -> Seq<int>
    decreases n,
{
    if n <= 0 {
        Seq::empty()
    } else {
        let r = match_positions(es, feed_id, since, until, q, n - 1);
        if entry_matches(es[n - 1], feed_id, since, until, q) {
            r.push(n - 1)
        } else {
            r
        }
    }
}

/// Entry `a` is listed before entry `b`: dated before undated, newer
/// before older, and by ascending id among equals.
pub open spec fn precedes(a: StoredEntry, b: StoredEntry) -> bool {
    match (a.published_ms, b.published_ms) {
        (Some(x), Some(y)) => x > y || (x == y && a.id < b.id),
        (Some(_), None) => true,
        (None, Some(_)) => false,
        (None, None) => a.id < b.id,
    }
}

/// Insert a position before the first one it precedes.
pub open spec fn insert_ordered(es: Seq<StoredEntry>, r: Seq<int>, x: int) -> Seq<int>
    decreases r.len(),
{
    if r.len() == 0 {
        seq![x]
    } else if precedes(es[x], es[r[0]]) {
        seq![x] + r
    } else {
        seq![r[0]] + insert_ordered(es, r.drop_first(), x)
    }
}

/// Positions in listing order.
pub open spec fn order_positions(es: Seq<StoredEntry>, s: Seq<int>) -> Seq<int>
    decreases s.len(),
{
    if s.len() == 0 {
        s
    } else {
        insert_ordered(es, order_positions(es, s.drop_last()), s.last())
    }
}

/// The `limit` items after skipping `offset`.
pub open spec fn page_of(s: Seq<int>, offset: int, limit: int) -> Seq<int> {
    if offset >= s.len() {
        Seq::empty()
    } else if offset + limit >= s.len() {
        s.skip(offset)
    } else {
        s.subrange(offset, offset + limit)
    }
}

pub open spec fn clamp_limit(l: i64) -> int {
    if l < 0 {
        0
    } else if l > 500 {
        500
    } else {
        l as int
    }
}

pub open spec fn clamp_offset(o: i64) -> int {
    if o < 0 {
        0
    } else {
        o as int
    }
}

/// The millisecond key of a query bound, if it reads as a date.
pub open spec fn bound_ms(b: Seq<char>) -> Option<int> {
    match date_of(b) {
        Some(i) => Some(i.millis()),
        None => None,
    }
}


pub open spec fn keep_feed(id: i64) -> spec_fn(StoredFeed) -> bool {
    |f: StoredFeed| f.id != id
}

pub open spec fn keep_entry(id: i64) -> spec_fn(StoredEntry) -> bool {
    |e: StoredEntry| e.feed_id != id
}

/// A query bound: `Some(None)` when absent, `Some(Some(ms))` when it reads
/// as a date, `None` when it does not.
pub open spec fn query_bound(b: Option<Seq<char>>) -> Option<Option<int>> {
    match b {
        None => Some(None),
        Some(s) => match bound_ms(s) {
            Some(ms) => Some(Some(ms)),
            None => None,
        },
    }
}

pub open spec fn as_ints(v: Seq<usize>) -> Seq<int> {
    v.map_values(|x: usize| x as int)
}

/// The listed positions of a query's matches, in listing order.
pub open spec fn listing(
    es: Seq<StoredEntry>,
    feed_id: Option<i64>,
    since: Option<int>,
    until: Option<int>,
    q: Option<Seq<char>>,
) -> Seq<int> {
    order_positions(es, match_positions(es, feed_id, since, until, q, es.len() as int))
}

proof fn lemma_filter_rev<A>(s: Seq<A>, p: spec_fn(A) -> bool, i: int)
    requires
        0 <= i < s.filter(p).len(),
    ensures
        exists|j: int| 0 <= j < s.len() && s[j] == s.filter(p)[i],
{
    assert(s.filter(p).contains(s.filter(p)[i]));
    s.lemma_filter_contains_rev(p, s.filter(p)[i]);
    assert(s.contains(s.filter(p)[i]));
}

/// Filtering keeps a relation that holds between every earlier and later
/// element.
proof fn lemma_filter_pairwise<A>(s: Seq<A>, p: spec_fn(A) -> bool, r: spec_fn(A, A) -> bool)
    requires
        forall|i: int, j: int| 0 <= i < j < s.len() ==> r(s[i], s[j]),
    ensures
        forall|i: int, j: int|
            0 <= i < j < s.filter(p).len() ==> r(s.filter(p)[i], s.filter(p)[j]),
    decreases s.len(),
{
    reveal(Seq::filter);
    if s.len() > 0 {
        let d = s.drop_last();
        assert forall|i: int, j: int| 0 <= i < j < d.len() implies r(d[i], d[j]) by {
            assert(d[i] == s[i] && d[j] == s[j]);
        }
        lemma_filter_pairwise(d, p, r);
        let f = s.filter(p);
        let fd = d.filter(p);
        assert forall|i: int, j: int| 0 <= i < j < f.len() implies r(f[i], f[j]) by {
            if j < fd.len() {
                assert(f[i] == fd[i] && f[j] == fd[j]);
            } else {
                assert(p(s.last()));
                assert(f[j] == s.last());
                assert(f[i] == fd[i]);
                lemma_filter_rev(d, p, i);
                let k = choose|k: int| 0 <= k < d.len() && d[k] == fd[i];
                assert(d[k] == s[k]);
                assert(r(s[k], s[s.len() - 1]));
            }
        }
    }
}

/// Filtering keeps a property of every element.
proof fn lemma_filter_all<A>(s: Seq<A>, p: spec_fn(A) -> bool, q: spec_fn(A) -> bool)
    requires
        forall|i: int| 0 <= i < s.len() ==> q(s[i]),
    ensures
        forall|i: int| 0 <= i < s.filter(p).len() ==> q(s.filter(p)[i]),
{
    assert forall|i: int| 0 <= i < s.filter(p).len() implies q(s.filter(p)[i]) by {
        lemma_filter_rev(s, p, i);
    }
}

/// Inserting before the first position that the new one precedes.
proof fn lemma_insert_ordered(es: Seq<StoredEntry>, r: Seq<int>, x: int, p: int)
    requires
        0 <= p <= r.len(),
        forall|j: int| 0 <= j < p ==> !precedes(es[x], #[trigger] es[r[j]]),
        p < r.len() ==> precedes(es[x], es[r[p]]),
    ensures
        insert_ordered(es, r, x) == r.insert(p, x),
    decreases r.len(),
{
    if r.len() == 0 {
        assert(r.insert(p, x) =~= seq![x]);
    } else if p == 0 {
        assert(r.insert(p, x) =~= seq![x] + r);
    } else {
        assert(!precedes(es[x], es[r[0]]));
        let d = r.drop_first();
        assert forall|j: int| 0 <= j < p - 1 implies !precedes(es[x], #[trigger] es[d[j]]) by {
            assert(d[j] == r[j + 1]);
        }
        lemma_insert_ordered(es, d, x, p - 1);
        assert(r.insert(p, x) =~= seq![r[0]] + d.insert(p - 1, x));
    }
}

// ---------------------------------------------------------------- rows

struct FeedRec {
    id: i64,
    url: String,
    title: Option<String>,
    last_fetched_at: Option<String>,
    last_error: Option<String>,
    etag: Option<String>,
    last_modified: Option<String>,
}

struct EntryRec {
    id: i64,
    feed_id: i64,
    guid: String,
    title: String,
    link: Option<String>,
    summary: Option<String>,
    published_at: Option<String>,
    published_ms: Option<i64>,
    fetched_at: String,
}

impl FeedRec {
    closed spec fn row(&self) -> StoredFeed {
        StoredFeed {
            id: self.id,
            url: self.url@,
            title: opt_view(self.title),
            last_fetched_at: opt_view(self.last_fetched_at),
            last_error: opt_view(self.last_error),
            etag: opt_view(self.etag),
            last_modified: opt_view(self.last_modified),
        }
    }
}

impl EntryRec {
    closed spec fn row(&self) -> StoredEntry {
        StoredEntry {
            id: self.id,
            feed_id: self.feed_id,
            guid: self.guid@,
            title: self.title@,
            link: opt_view(self.link),
            summary: opt_view(self.summary),
            published_at: opt_view(self.published_at),
            published_ms: self.published_ms,
            fetched_at: self.fetched_at@,
        }
    }
}

closed spec fn feed_rows(v: Seq<FeedRec>) -> Seq<StoredFeed> {
    v.map_values(|f: FeedRec| f.row())
}

closed spec fn entry_rows(v: Seq<EntryRec>) -> Seq<StoredEntry> {
    v.map_values(|e: EntryRec| e.row())
}

/// A handle to the feed store.
pub struct Store {
    feeds: Vec<FeedRec>,
    entries: Vec<EntryRec>,
    next_feed_id: i64,
    next_entry_id: i64,
}

impl View for Store {
    type V = StoreV;

    closed spec fn view(&self) -> StoreV {
        StoreV {
            feeds: feed_rows(self.feeds@),
            entries: entry_rows(self.entries@),
            next_feed_id: self.next_feed_id,
            next_entry_id: self.next_entry_id,
        }
    }
}

fn clone_opt(o: &Option<String>) -> (r: Option<String>)
    ensures
        r == *o,
{
    match o {
        Some(s) => Some(s.clone()),
        None => None,
    }
}

fn opt_string(o: Option<&str>) -> (r: Option<String>)
    ensures
        opt_view(r) == match o {
            Some(s) => Some(s@),
            None => None::<Seq<char>>,
        },
{
    match o {
        Some(s) => Some(s.to_owned()),
        None => None,
    }
}

/// Whether a URL is acceptable for [`Store::add_feed`].
pub fn is_valid_feed_url(url: &str) -> (r: bool)
    ensures
        r == valid_http_url(url@),
{
    let v = str_chars(url);
    let u = trim_vec(v.as_slice());
    let http: &[char] = &['h', 't', 't', 'p', ':', '/', '/'];
    let https: &[char] = &['h', 't', 't', 'p', 's', ':', '/', '/'];
    assert(http@ == http_prefix());
    assert(https@ == https_prefix());
    (starts_with_exec(u.as_slice(), http) || starts_with_exec(u.as_slice(), https))
        && utf8_longer_than(u.as_slice(), 8)
}


proof fn lemma_count_bounds(es: Seq<StoredEntry>, id: i64)
    ensures
        0 <= count_entries(es, id) <= es.len(),
    decreases es.len(),
{
    if es.len() > 0 {
        lemma_count_bounds(es.drop_last(), id);
    }
}

proof fn lemma_count_zero(es: Seq<StoredEntry>, id: i64)
    requires
        forall|i: int| 0 <= i < es.len() ==> (#[trigger] es[i]).feed_id != id,
    ensures
        count_entries(es, id) == 0,
    decreases es.len(),
{
    if es.len() > 0 {
        assert forall|i: int| 0 <= i < es.drop_last().len() implies (
        #[trigger] es.drop_last()[i]).feed_id != id by {
            assert(es.drop_last()[i] == es[i]);
        }
        lemma_count_zero(es.drop_last(), id);
        assert(es.last() == es[es.len() - 1]);
    }
}

proof fn lemma_feed_pos(v: StoreV, i: int, id: i64)
    requires
        store_wf(v),
        0 <= i < v.feeds.len(),
        v.feeds[i].id == id,
    ensures
        has_feed(v, id),
        feed_pos(v, id) == i,
{
    assert(has_feed(v, id));
    let j = feed_pos(v, id);
    if j < i {
        assert(v.feeds[j].id < v.feeds[i].id);
    } else if j > i {
        assert(v.feeds[i].id < v.feeds[j].id);
    }
}

proof fn lemma_entry_pos(v: StoreV, i: int, feed_id: i64, guid: Seq<char>)
    requires
        store_wf(v),
        0 <= i < v.entries.len(),
        v.entries[i].feed_id == feed_id,
        v.entries[i].guid == guid,
    ensures
        has_entry(v, feed_id, guid),
        entry_pos(v, feed_id, guid) == i,
{
    assert(has_entry(v, feed_id, guid));
    let j = entry_pos(v, feed_id, guid);
    if j < i {
        assert(v.entries[j] == v.entries[j]);
        assert(v.entries[i] == v.entries[i]);
    } else if j > i {
        assert(v.entries[j] == v.entries[j]);
        assert(v.entries[i] == v.entries[i]);
    }
}

impl Store {
    /// The store's invariant.
    pub open spec fn wf(&self) -> bool {
        store_wf(self@)
    }

    /// An empty store.
    pub fn open_in_memory() -> (s: Store)
        ensures
            s.wf(),
            s@.feeds.len() == 0,
            s@.entries.len() == 0,
            s@.next_feed_id == 1,
            s@.next_entry_id == 1,
    {
        let s = Store { feeds: Vec::new(), entries: Vec::new(), next_feed_id: 1, next_entry_id: 1 };
        assert(feed_rows(s.feeds@) =~= Seq::<StoredFeed>::empty());
        assert(entry_rows(s.entries@) =~= Seq::<StoredEntry>::empty());
        s
    }

    /// Whether a feed has this id.
    pub(crate) fn has_feed_id(&self, id: i64) -> (r: bool)
        requires
            self.wf(),
        ensures
            r == has_feed(self@, id),
    {
        self.find_feed(id).is_some()
    }

    /// The id the next new entry gets.
    pub(crate) fn next_entry_id_value(&self) -> (r: i64)
        ensures
            r == self@.next_entry_id,
    {
        self.next_entry_id
    }

    fn find_feed(&self, id: i64) -> (r: Option<usize>)
        requires
            self.wf(),
        ensures
            r matches Some(i) ==> i < self@.feeds.len() && self@.feeds[i as int].id == id && has_feed(
                self@,
                id,
            ) && feed_pos(self@, id) == i,
            r is None ==> !has_feed(self@, id),
    {
        let mut i: usize = 0;
        while i < self.feeds.len()
            invariant
                self.wf(),
                i <= self.feeds@.len(),
                feed_rows(self.feeds@).len() == self.feeds@.len(),
                forall|j: int| 0 <= j < i ==> (#[trigger] self@.feeds[j]).id != id,
            decreases self.feeds@.len() - i,
        {
            assert(self@.feeds[i as int] == self.feeds@[i as int].row());
            if self.feeds[i].id == id {
                proof {
                    lemma_feed_pos(self@, i as int, id);
                }
                return Some(i);
            }
            i = i + 1;
        }
        None
    }

    fn count_for(&self, id: i64) -> (n: i64)
        requires
            self.wf(),
        ensures
            n == count_entries(self@.entries, id),
    {
        let ghost es = self@.entries;
        let mut n: i64 = 0;
        let mut k: usize = 0;
        assert(es.take(0) =~= Seq::<StoredEntry>::empty());
        while k < self.entries.len()
            invariant
                self.wf(),
                es == self@.entries,
                es.len() == self.entries@.len(),
                k <= es.len(),
                n == count_entries(es.take(k as int), id),
                0 <= n <= k,
            decreases es.len() - k,
        {
            assert(es[k as int] == self.entries@[k as int].row());
            assert(es.take(k + 1).drop_last() =~= es.take(k as int));
            if self.entries[k].feed_id == id {
                n = n + 1;
            }
            k = k + 1;
        }
        assert(es.take(k as int) =~= es);
        n
    }

    fn feed_at(&self, i: usize) -> (f: Feed)
        requires
            self.wf(),
            i < self@.feeds.len(),
        ensures
            f@ == feed_out(self@.feeds[i as int], self@.entries),
    {
        assert(self@.feeds[i as int] == self.feeds@[i as int].row());
        let r = &self.feeds[i];
        let n = self.count_for(r.id);
        Feed {
            id: r.id,
            url: r.url.clone(),
            title: clone_opt(&r.title),
            last_fetched_at: clone_opt(&r.last_fetched_at),
            last_error: clone_opt(&r.last_error),
            entry_count: n,
        }
    }

    /// Fetch one feed (with its entry count) by id.
    pub fn get_feed(&self, id: i64) -> (r: Option<Feed>)
        requires
            self.wf(),
        ensures
            r is Some <==> has_feed(self@, id),
            r matches Some(f) ==> f@ == feed_out(self@.feeds[feed_pos(self@, id)], self@.entries),
    {
        match self.find_feed(id) {
            Some(i) => Some(self.feed_at(i)),
            None => None,
        }
    }

    /// All feeds ordered by id.
    pub fn list_feeds(&self) -> (r: Vec<Feed>)
        requires
            self.wf(),
        ensures
            r@.len() == self@.feeds.len(),
            forall|i: int| 0 <= i < r@.len() ==> (#[trigger] r@[i])@ == feed_out(self@.feeds[i], self@.entries),
    {
        let mut out: Vec<Feed> = Vec::new();
        let mut i: usize = 0;
        while i < self.feeds.len()
            invariant
                self.wf(),
                i <= self.feeds@.len(),
                feed_rows(self.feeds@).len() == self.feeds@.len(),
                out@.len() == i,
                forall|j: int| 0 <= j < i ==> (#[trigger] out@[j])@ == feed_out(self@.feeds[j], self@.entries),
            decreases self.feeds@.len() - i,
        {
            let f = self.feed_at(i);
            out.push(f);
            i = i + 1;
        }
        out
    }

    /// All feed ids, ascending.
    pub fn feed_ids(&self) -> (r: Vec<i64>)
        requires
            self.wf(),
        ensures
            r@ == self@.feeds.map_values(|f: StoredFeed| f.id),
    {
        let mut out: Vec<i64> = Vec::new();
        let mut i: usize = 0;
        while i < self.feeds.len()
            invariant
                i <= self.feeds@.len(),
                feed_rows(self.feeds@).len() == self.feeds@.len(),
                out@ == self@.feeds.take(i as int).map_values(|f: StoredFeed| f.id),
            decreases self.feeds@.len() - i,
        {
            assert(self@.feeds[i as int] == self.feeds@[i as int].row());
            out.push(self.feeds[i].id);
            assert(self@.feeds.take(i + 1).map_values(|f: StoredFeed| f.id) =~= self@.feeds.take(
                i as int,
            ).map_values(|f: StoredFeed| f.id).push(self@.feeds[i as int].id));
            i = i + 1;
        }
        assert(self@.feeds.take(i as int) =~= self@.feeds);
        out
    }

    /// The conditional-GET validators of a feed, if it exists.
    pub fn fetch_info(&self, id: i64) -> (r: Option<FeedFetchInfo>)
        requires
            self.wf(),
        ensures
            r is Some <==> has_feed(self@, id),
            r matches Some(info) ==> {
                let f = self@.feeds[feed_pos(self@, id)];
                &&& info.url@ == f.url
                &&& opt_view(info.etag) == f.etag
                &&& opt_view(info.last_modified) == f.last_modified
            },
    {
        match self.find_feed(id) {
            Some(i) => {
                assert(self@.feeds[i as int] == self.feeds@[i as int].row());
                let r = &self.feeds[i];
                Some(
                    FeedFetchInfo {
                        url: r.url.clone(),
                        etag: clone_opt(&r.etag),
                        last_modified: clone_opt(&r.last_modified),
                    },
                )
            },
            None => None,
        }
    }

    fn find_url(&self, url: &String) -> (r: bool)
        requires
            self.wf(),
        ensures
            r == url_taken(self@, url@),
    {
        let mut i: usize = 0;
        while i < self.feeds.len()
            invariant
                i <= self.feeds@.len(),
                feed_rows(self.feeds@).len() == self.feeds@.len(),
                forall|j: int| 0 <= j < i ==> (#[trigger] self@.feeds[j]).url != url@,
            decreases self.feeds@.len() - i,
        {
            assert(self@.feeds[i as int] == self.feeds@[i as int].row());
            if self.feeds[i].url == *url {
                return true;
            }
            i = i + 1;
        }
        false
    }

    /// Register a new feed URL (trimmed). Errors: [`StoreError::InvalidUrl`],
    /// [`StoreError::Duplicate`], and [`StoreError::Full`] when the ids are
    /// used up.
    pub fn add_feed(&mut self, url: &str) -> (r: Result<Feed, StoreError>)
        requires
            old(self).wf(),
        ensures
            final(self).wf(),
            !valid_http_url(url@) ==> r matches Err(StoreError::InvalidUrl),
            valid_http_url(url@) && url_taken(old(self)@, trim(url@)) ==> r matches Err(
                StoreError::Duplicate,
            ),
            valid_http_url(url@) && !url_taken(old(self)@, trim(url@)) && old(self)@.next_feed_id
                == i64::MAX ==> r matches Err(StoreError::Full),
            r is Err ==> final(self)@ == old(self)@,
            valid_http_url(url@) && !url_taken(old(self)@, trim(url@)) && old(self)@.next_feed_id
                < i64::MAX ==> r is Ok,
            r matches Ok(f) ==> {
                let row = StoredFeed {
                    id: old(self)@.next_feed_id,
                    url: trim(url@),
                    title: None,
                    last_fetched_at: None,
                    last_error: None,
                    etag: None,
                    last_modified: None,
                };
                &&& final(self)@.feeds == old(self)@.feeds.push(row)
                &&& final(self)@.entries == old(self)@.entries
                &&& final(self)@.next_feed_id == old(self)@.next_feed_id + 1
                &&& final(self)@.next_entry_id == old(self)@.next_entry_id
                &&& f@ == feed_out(row, old(self)@.entries)
                &&& f@.entry_count == 0
            },
    {
        if !is_valid_feed_url(url) {
            return Err(StoreError::InvalidUrl);
        }
        let v = str_chars(url);
        let u = trim_vec(v.as_slice());
        let u = string_of(u.as_slice());
        if self.find_url(&u) {
            return Err(StoreError::Duplicate);
        }
        if self.next_feed_id == i64::MAX {
            return Err(StoreError::Full);
        }
        let id = self.next_feed_id;
        let ghost before = self@;
        let rec = FeedRec {
            id,
            url: u.clone(),
            title: None,
            last_fetched_at: None,
            last_error: None,
            etag: None,
            last_modified: None,
        };
        let ghost oldfeeds = self.feeds@;
        self.feeds.push(rec);
        self.next_feed_id = id + 1;
        assert(feed_rows(self.feeds@) =~= feed_rows(oldfeeds).push(rec.row()));
        proof {
            let v2 = self@;
            assert forall|i: int| 0 <= i < v2.entries.len() implies has_feed(
                v2,
                #[trigger] v2.entries[i].feed_id,
            ) by {
                assert(has_feed(before, before.entries[i].feed_id));
                let j = feed_pos(before, before.entries[i].feed_id);
                assert(v2.feeds[j] == before.feeds[j]);
            }
            assert forall|i: int| 0 <= i < before.entries.len() implies (
            #[trigger] before.entries[i]).feed_id != id by {
                assert(has_feed(before, before.entries[i].feed_id));
                let j = feed_pos(before, before.entries[i].feed_id);
                assert(before.feeds[j].id < id);
            }
            lemma_count_zero(before.entries, id);
            assert forall|i: int, j: int|
                #![trigger v2.feeds[i], v2.feeds[j]]
                0 <= i < j < v2.feeds.len() implies v2.feeds[i].url != v2.feeds[j].url by {
                if j == v2.feeds.len() - 1 {
                    assert(before.feeds[i].url != u@);
                }
            }
        }
        Ok(
            Feed {
                id,
                url: u,
                title: None,
                last_fetched_at: None,
                last_error: None,
                entry_count: 0,
            },
        )
    }
}

/// What a refresh needs to know before going to the network.
pub type FetchState = FeedFetchInfo;

/// Result of registering a feed URL when an existing registration is an
/// answer rather than an error.
#[derive(Clone, Debug)]
pub enum AddOutcome {
    Created(Feed),
    Duplicate,
}

/// Why [`insert_feed`] did not add the feed.
#[derive(Clone, Debug)]
pub enum InsertFeedError {
    /// The URL is already registered.
    Duplicate,
    /// The store refused the feed for another reason.
    Db(StoreError),
}

impl Store {
    /// Register a feed URL; one that is already registered is reported as
    /// [`AddOutcome::Duplicate`] and leaves the store as it was. Other
    /// refusals are those of [`Store::add_feed`].
    pub fn register(&mut self, url: &str) -> (r: Result<AddOutcome, StoreError>)
        requires
            old(self).wf(),
        ensures
            final(self).wf(),
            !valid_http_url(url@) ==> r matches Err(StoreError::InvalidUrl),
            valid_http_url(url@) && url_taken(old(self)@, trim(url@)) ==> r matches Ok(AddOutcome::Duplicate),
            valid_http_url(url@) && !url_taken(old(self)@, trim(url@)) && old(self)@.next_feed_id
                == i64::MAX ==> r matches Err(StoreError::Full),
            !(r matches Ok(AddOutcome::Created(_))) ==> final(self)@ == old(self)@,
            valid_http_url(url@) && !url_taken(old(self)@, trim(url@)) && old(self)@.next_feed_id
                < i64::MAX ==> r matches Ok(AddOutcome::Created(_)),
            r matches Ok(AddOutcome::Created(f)) ==> {
                let row = StoredFeed {
                    id: old(self)@.next_feed_id,
                    url: trim(url@),
                    title: None,
                    last_fetched_at: None,
                    last_error: None,
                    etag: None,
                    last_modified: None,
                };
                &&& final(self)@.feeds == old(self)@.feeds.push(row)
                &&& final(self)@.entries == old(self)@.entries
                &&& final(self)@.next_feed_id == old(self)@.next_feed_id + 1
                &&& final(self)@.next_entry_id == old(self)@.next_entry_id
                &&& f@ == feed_out(row, old(self)@.entries)
            },
    {
        match self.add_feed(url) {
            Ok(f) => Ok(AddOutcome::Created(f)),
            Err(StoreError::Duplicate) => Ok(AddOutcome::Duplicate),
            Err(e) => Err(e),
        }
    }
}

/// Register a new feed: [`InsertFeedError::Duplicate`] when its URL is
/// already registered, [`InsertFeedError::Db`] with the store's reason for
/// any other refusal.
pub fn insert_feed(store: &mut Store, url: &str) -> (r: Result<Feed, InsertFeedError>)
    requires
        old(store).wf(),
    ensures
        final(store).wf(),
        !valid_http_url(url@) ==> r matches Err(InsertFeedError::Db(StoreError::InvalidUrl)),
        valid_http_url(url@) && url_taken(old(store)@, trim(url@)) ==> r matches Err(InsertFeedError::Duplicate),
        valid_http_url(url@) && !url_taken(old(store)@, trim(url@)) && old(store)@.next_feed_id == i64::MAX
            ==> r matches Err(InsertFeedError::Db(StoreError::Full)),
        r is Err ==> final(store)@ == old(store)@,
        valid_http_url(url@) && !url_taken(old(store)@, trim(url@)) && old(store)@.next_feed_id < i64::MAX
            ==> r is Ok,
        r matches Ok(f) ==> {
            let row = StoredFeed {
                id: old(store)@.next_feed_id,
                url: trim(url@),
                title: None,
                last_fetched_at: None,
                last_error: None,
                etag: None,
                last_modified: None,
            };
            &&& final(store)@.feeds == old(store)@.feeds.push(row)
            &&& final(store)@.entries == old(store)@.entries
            &&& final(store)@.next_feed_id == old(store)@.next_feed_id + 1
            &&& final(store)@.next_entry_id == old(store)@.next_entry_id
            &&& f@ == feed_out(row, old(store)@.entries)
        },
{
    match store.add_feed(url) {
        Ok(f) => Ok(f),
        Err(StoreError::Duplicate) => Err(InsertFeedError::Duplicate),
        Err(e) => Err(InsertFeedError::Db(e)),
    }
}

impl Store {
    /// Delete a feed and its entries. Returns `true` if the feed existed.
    pub fn delete_feed(&mut self, id: i64) -> (r: bool)
        requires
            old(self).wf(),
        ensures
            final(self).wf(),
            r == has_feed(old(self)@, id),
            final(self)@.feeds == old(self)@.feeds.filter(keep_feed(id)),
            final(self)@.entries == old(self)@.entries.filter(keep_entry(id)),
            final(self)@.next_feed_id == old(self)@.next_feed_id,
            final(self)@.next_entry_id == old(self)@.next_entry_id,
    {
        let found = self.find_feed(id).is_some();
        let ghost before = self@;
        let mut rest: Vec<FeedRec> = Vec::new();
        std::mem::swap(&mut rest, &mut self.feeds);
        let ghost orig = feed_rows(rest@);
        assert(orig == before.feeds);
        let mut kept: Vec<FeedRec> = Vec::new();
        assert(orig.take(0) =~= Seq::<StoredFeed>::empty());
        assert(orig.skip(0) =~= orig);
        assert(feed_rows(kept@) =~= orig.take(0).filter(keep_feed(id))) by {
            reveal(Seq::filter);
        }
        while rest.len() > 0
            invariant
                orig.len() == before.feeds.len(),
                rest@.len() <= orig.len(),
                feed_rows(rest@) == orig.skip(orig.len() - rest@.len()),
                feed_rows(kept@) == orig.take(orig.len() - rest@.len()).filter(keep_feed(id)),
            decreases rest@.len(),
        {
            let ghost k = orig.len() - rest@.len();
            let ghost old_rest = rest@;
            let f = rest.remove(0);
            assert(f.row() == orig[k]) by {
                assert(feed_rows(old_rest)[0] == orig.skip(k)[0]);
            }
            assert forall|i: int| 0 <= i < rest@.len() implies #[trigger] feed_rows(rest@)[i] == orig.skip(k + 1)[i] by {
                assert(rest@[i] == old_rest[i + 1]);
                assert(feed_rows(old_rest)[i + 1] == orig.skip(k)[i + 1]);
            }
            assert(feed_rows(rest@) =~= orig.skip(k + 1));
            assert(orig.take(k + 1).drop_last() =~= orig.take(k));
            assert(orig.take(k + 1).last() == orig[k]);
            let ghost prev = feed_rows(kept@);
            if f.id != id {
                kept.push(f);
                assert(feed_rows(kept@) =~= prev.push(orig[k]));
            }
            assert(feed_rows(kept@) == orig.take(k + 1).filter(keep_feed(id))) by {
                reveal(Seq::filter);
            }
        }
        assert(orig.take(orig.len() as int) =~= orig);
        self.feeds = kept;

        let mut rest_e: Vec<EntryRec> = Vec::new();
        std::mem::swap(&mut rest_e, &mut self.entries);
        let ghost orig_e = entry_rows(rest_e@);
        assert(orig_e == before.entries);
        let mut kept_e: Vec<EntryRec> = Vec::new();
        assert(orig_e.take(0) =~= Seq::<StoredEntry>::empty());
        assert(orig_e.skip(0) =~= orig_e);
        assert(entry_rows(kept_e@) =~= orig_e.take(0).filter(keep_entry(id))) by {
            reveal(Seq::filter);
        }
        while rest_e.len() > 0
            invariant
                rest_e@.len() <= orig_e.len(),
                entry_rows(rest_e@) == orig_e.skip(orig_e.len() - rest_e@.len()),
                entry_rows(kept_e@) == orig_e.take(orig_e.len() - rest_e@.len()).filter(
                    keep_entry(id),
                ),
            decreases rest_e@.len(),
        {
            let ghost k = orig_e.len() - rest_e@.len();
            let ghost old_rest = rest_e@;
            let e = rest_e.remove(0);
            assert(e.row() == orig_e[k]) by {
                assert(entry_rows(old_rest)[0] == orig_e.skip(k)[0]);
            }
            assert forall|i: int| 0 <= i < rest_e@.len() implies #[trigger] entry_rows(rest_e@)[i] == orig_e.skip(k + 1)[i] by {
                assert(rest_e@[i] == old_rest[i + 1]);
                assert(entry_rows(old_rest)[i + 1] == orig_e.skip(k)[i + 1]);
            }
            assert(entry_rows(rest_e@) =~= orig_e.skip(k + 1));
            assert(orig_e.take(k + 1).drop_last() =~= orig_e.take(k));
            assert(orig_e.take(k + 1).last() == orig_e[k]);
            let ghost prev = entry_rows(kept_e@);
            if e.feed_id != id {
                kept_e.push(e);
                assert(entry_rows(kept_e@) =~= prev.push(orig_e[k]));
            }
            assert(entry_rows(kept_e@) == orig_e.take(k + 1).filter(keep_entry(id))) by {
                reveal(Seq::filter);
            }
        }
        assert(orig_e.take(orig_e.len() as int) =~= orig_e);
        self.entries = kept_e;
        proof {
            let v = self@;
            let nf = before.next_feed_id;
            let ne = before.next_entry_id;
            lemma_filter_pairwise(before.feeds, keep_feed(id), |a: StoredFeed, b: StoredFeed| a.id < b.id);
            lemma_filter_pairwise(before.feeds, keep_feed(id), |a: StoredFeed, b: StoredFeed| a.url != b.url);
            lemma_filter_all(before.feeds, keep_feed(id), |a: StoredFeed| 1 <= a.id < nf);
            lemma_filter_pairwise(before.entries, keep_entry(id), |a: StoredEntry, b: StoredEntry| a.id < b.id);
            lemma_filter_pairwise(
                before.entries,
                keep_entry(id),
                |a: StoredEntry, b: StoredEntry| !(a.feed_id == b.feed_id && a.guid == b.guid),
            );
            lemma_filter_all(before.entries, keep_entry(id), |a: StoredEntry| 1 <= a.id < ne);
            lemma_filter_all(before.entries, keep_entry(id), |a: StoredEntry| has_feed(before, a.feed_id));
            assert(v.feeds.len() <= before.feeds.len()) by {
                broadcast use vstd::seq_lib::group_filter_ensures;
            }
            assert(v.entries.len() <= before.entries.len()) by {
                broadcast use vstd::seq_lib::group_filter_ensures;
            }
            assert forall|i: int| 0 <= i < v.entries.len() implies has_feed(v, #[trigger] v.entries[i].feed_id) by {
                let fid = v.entries[i].feed_id;
                before.entries.lemma_filter_pred(keep_entry(id), i);
                assert(has_feed(before, fid) && fid != id);
                let j = feed_pos(before, fid);
                assert(keep_feed(id)(before.feeds[j]));
                broadcast use vstd::seq_lib::group_filter_ensures;
                assert(v.feeds.contains(before.feeds[j]));
            }
            assert forall|i: int, j: int| 0 <= i < j < v.feeds.len() implies v.feeds[i].id < v.feeds[j].id by {}
            assert forall|i: int| 0 <= i < v.feeds.len() implies 1 <= #[trigger] v.feeds[i].id < v.next_feed_id by {}
            assert forall|i: int, j: int| 0 <= i < j < v.entries.len() implies v.entries[i].id < v.entries[j].id by {}
            assert forall|i: int| 0 <= i < v.entries.len() implies 1 <= #[trigger] v.entries[i].id < v.next_entry_id by {}
            assert forall|i: int, j: int|
                #![trigger v.feeds[i], v.feeds[j]]
                0 <= i < j < v.feeds.len() implies v.feeds[i].url != v.feeds[j].url by {}
            assert forall|i: int, j: int|
                #![trigger v.entries[i], v.entries[j]]
                0 <= i < j < v.entries.len() implies !(v.entries[i].feed_id == v.entries[j].feed_id
                    && v.entries[i].guid == v.entries[j].guid) by {}
        }
        found
    }
}

/// A feed row after a successful fetch: the title is replaced only when the
/// feed gave one; the fetch time and validators are recorded; the error is
/// cleared.
pub open spec fn after_success(
    f: StoredFeed,
    title: Option<Seq<char>>,
    fetched_at: Seq<char>,
    etag: Option<Seq<char>>,
    last_modified: Option<Seq<char>>,
) -> StoredFeed {
    StoredFeed {
        title: match title {
            Some(t) => Some(t),
            None => f.title,
        },
        last_fetched_at: Some(fetched_at),
        last_error: None,
        etag: etag,
        last_modified: last_modified,
        ..f
    }
}

pub open spec fn after_not_modified(f: StoredFeed, fetched_at: Seq<char>) -> StoredFeed {
    StoredFeed { last_fetched_at: Some(fetched_at), last_error: None, ..f }
}

pub open spec fn after_error(f: StoredFeed, fetched_at: Seq<char>, error: Seq<char>) -> StoredFeed {
    StoredFeed { last_fetched_at: Some(fetched_at), last_error: Some(error), ..f }
}

/// A feed row after a failure that leaves the time of the last successful
/// fetch alone.
pub open spec fn after_failure(f: StoredFeed, error: Seq<char>) -> StoredFeed {
    StoredFeed { last_error: Some(error), ..f }
}

pub open spec fn str_opt(o: Option<&str>) -> Option<Seq<char>> {
    match o {
        Some(s) => Some(s@),
        None => None,
    }
}

/// The store after one feed row is replaced by `f`.
pub open spec fn with_feed(v: StoreV, id: i64, f: StoredFeed) -> StoreV {
    StoreV { feeds: v.feeds.update(feed_pos(v, id), f), ..v }
}

/// An entry row rewritten by a refetch: the identity, id, feed and first
/// fetch time stay.
pub open spec fn refreshed_entry(e: StoredEntry, item: ItemV) -> StoredEntry {
    StoredEntry {
        title: item.title,
        link: item.link,
        summary: item.summary,
        published_at: published_text(item.published_at),
        published_ms: published_key(item.published_at),
        ..e
    }
}

pub open spec fn new_entry(id: i64, feed_id: i64, item: ItemV, fetched_at: Seq<char>) -> StoredEntry {
    StoredEntry {
        id: id,
        feed_id: feed_id,
        guid: item.guid,
        title: item.title,
        link: item.link,
        summary: item.summary,
        published_at: published_text(item.published_at),
        published_ms: published_key(item.published_at),
        fetched_at: fetched_at,
    }
}

/// The store and outcome of upserting one item.
pub open spec fn upsert_view(v: StoreV, feed_id: i64, item: ItemV, fetched_at: Seq<char>) -> (StoreV, Result<bool, StoreErrorV>) {
    if has_entry(v, feed_id, item.guid) {
        let p = entry_pos(v, feed_id, item.guid);
        (StoreV { entries: v.entries.update(p, refreshed_entry(v.entries[p], item)), ..v }, Ok(false))
    } else if !has_feed(v, feed_id) {
        (v, Err(StoreErrorV::NotFound))
    } else if v.next_entry_id == i64::MAX {
        (v, Err(StoreErrorV::Full))
    } else {
        (
            StoreV {
                entries: v.entries.push(new_entry(v.next_entry_id, feed_id, item, fetched_at)),
                next_entry_id: (v.next_entry_id + 1) as i64,
                ..v
            },
            Ok(true),
        )
    }
}

pub open spec fn upsert_result_view(r: Result<bool, StoreError>) -> Result<bool, StoreErrorV> {
    match r {
        Ok(b) => Ok(b),
        Err(e) => Err(e@),
    }
}

/// Upserting items in order: the store after, and how many were new.
pub open spec fn upsert_items(v: StoreV, feed_id: i64, items: Seq<ItemV>, fetched_at: Seq<char>) -> (StoreV, int)
    decreases items.len(),
{
    if items.len() == 0 {
        (v, 0)
    } else {
        let prev = upsert_items(v, feed_id, items.drop_last(), fetched_at);
        let step = upsert_view(prev.0, feed_id, items.last(), fetched_at);
        (step.0, prev.1 + if step.1 == Ok::<bool, StoreErrorV>(true) {
            1int
        } else {
            0int
        })
    }
}

impl Store {
    /// Replace the row at `i`, keeping its id and URL.
    fn replace_feed(&mut self, i: usize, f: FeedRec)
        requires
            old(self).wf(),
            i < old(self)@.feeds.len(),
            f.row().id == old(self)@.feeds[i as int].id,
            f.row().url == old(self)@.feeds[i as int].url,
        ensures
            final(self).wf(),
            final(self)@ == (StoreV { feeds: old(self)@.feeds.update(i as int, f.row()), ..old(self)@ }),
    {
        let ghost before = self@;
        let ghost oldfeeds = self.feeds@;
        self.feeds.set(i, f);
        assert(feed_rows(self.feeds@) =~= feed_rows(oldfeeds).update(i as int, f.row()));
        proof {
            let v = self@;
            assert forall|k: int| 0 <= k < v.entries.len() implies has_feed(v, #[trigger] v.entries[k].feed_id) by {
                let fid = v.entries[k].feed_id;
                assert(has_feed(before, fid));
                let j = feed_pos(before, fid);
                assert(v.feeds[j].id == before.feeds[j].id);
            }
            assert forall|a: int, b: int|
                #![trigger v.feeds[a], v.feeds[b]]
                0 <= a < b < v.feeds.len() implies v.feeds[a].url != v.feeds[b].url by {
                assert(v.feeds[a].url == before.feeds[a].url);
                assert(v.feeds[b].url == before.feeds[b].url);
                assert(before.feeds[a] == before.feeds[a]);
            }
            assert forall|a: int, b: int| 0 <= a < b < v.feeds.len() implies v.feeds[a].id < v.feeds[b].id by {
                assert(v.feeds[a].id == before.feeds[a].id);
                assert(v.feeds[b].id == before.feeds[b].id);
            }
            assert forall|a: int| 0 <= a < v.feeds.len() implies 1 <= #[trigger] v.feeds[a].id < v.next_feed_id by {
                assert(v.feeds[a].id == before.feeds[a].id);
            }
        }
    }

    /// Record a successful fetch: update title and validators, clear
    /// `last_error`. The title is only overwritten when the feed gave one.
    pub fn record_success(
        &mut self,
        id: i64,
        title: Option<&str>,
        fetched_at: &str,
        etag: Option<&str>,
        last_modified: Option<&str>,
    )
        requires
            old(self).wf(),
        ensures
            final(self).wf(),
            !has_feed(old(self)@, id) ==> final(self)@ == old(self)@,
            has_feed(old(self)@, id) ==> final(self)@ == with_feed(
                old(self)@,
                id,
                after_success(
                    old(self)@.feeds[feed_pos(old(self)@, id)],
                    str_opt(title),
                    fetched_at@,
                    str_opt(etag),
                    str_opt(last_modified),
                ),
            ),
    {
        match self.find_feed(id) {
            Some(i) => {
                assert(self@.feeds[i as int] == self.feeds@[i as int].row());
                let r = &self.feeds[i];
                let new_title = match title {
                    Some(t) => Some(t.to_owned()),
                    None => clone_opt(&r.title),
                };
                let f = FeedRec {
                    id: r.id,
                    url: r.url.clone(),
                    title: new_title,
                    last_fetched_at: Some(fetched_at.to_owned()),
                    last_error: None,
                    etag: opt_string(etag),
                    last_modified: opt_string(last_modified),
                };
                self.replace_feed(i, f);
            },
            None => {},
        }
    }

    /// Record a not-modified (304) fetch: a success that leaves the
    /// validators and entries untouched.
    pub fn record_not_modified(&mut self, id: i64, fetched_at: &str)
        requires
            old(self).wf(),
        ensures
            final(self).wf(),
            !has_feed(old(self)@, id) ==> final(self)@ == old(self)@,
            has_feed(old(self)@, id) ==> final(self)@ == with_feed(
                old(self)@,
                id,
                after_not_modified(old(self)@.feeds[feed_pos(old(self)@, id)], fetched_at@),
            ),
    {
        match self.find_feed(id) {
            Some(i) => {
                assert(self@.feeds[i as int] == self.feeds@[i as int].row());
                let r = &self.feeds[i];
                let f = FeedRec {
                    id: r.id,
                    url: r.url.clone(),
                    title: clone_opt(&r.title),
                    last_fetched_at: Some(fetched_at.to_owned()),
                    last_error: None,
                    etag: clone_opt(&r.etag),
                    last_modified: clone_opt(&r.last_modified),
                };
                self.replace_feed(i, f);
            },
            None => {},
        }
    }

    /// Record a failed fetch or parse: set `last_error` and the fetch time.
    pub fn record_error(&mut self, id: i64, fetched_at: &str, error: &str)
        requires
            old(self).wf(),
        ensures
            final(self).wf(),
            !has_feed(old(self)@, id) ==> final(self)@ == old(self)@,
            has_feed(old(self)@, id) ==> final(self)@ == with_feed(
                old(self)@,
                id,
                after_error(old(self)@.feeds[feed_pos(old(self)@, id)], fetched_at@, error@),
            ),
    {
        match self.find_feed(id) {
            Some(i) => {
                assert(self@.feeds[i as int] == self.feeds@[i as int].row());
                let r = &self.feeds[i];
                let f = FeedRec {
                    id: r.id,
                    url: r.url.clone(),
                    title: clone_opt(&r.title),
                    last_fetched_at: Some(fetched_at.to_owned()),
                    last_error: Some(error.to_owned()),
                    etag: clone_opt(&r.etag),
                    last_modified: clone_opt(&r.last_modified),
                };
                self.replace_feed(i, f);
            },
            None => {},
        }
    }

    /// Record a failed fetch or parse without touching the fetch time, which
    /// then keeps meaning the last successful fetch.
    pub fn record_failure(&mut self, id: i64, error: &str)
        requires
            old(self).wf(),
        ensures
            final(self).wf(),
            !has_feed(old(self)@, id) ==> final(self)@ == old(self)@,
            has_feed(old(self)@, id) ==> final(self)@ == with_feed(
                old(self)@,
                id,
                after_failure(old(self)@.feeds[feed_pos(old(self)@, id)], error@),
            ),
    {
        match self.find_feed(id) {
            Some(i) => {
                assert(self@.feeds[i as int] == self.feeds@[i as int].row());
                let r = &self.feeds[i];
                let f = FeedRec {
                    id: r.id,
                    url: r.url.clone(),
                    title: clone_opt(&r.title),
                    last_fetched_at: clone_opt(&r.last_fetched_at),
                    last_error: Some(error.to_owned()),
                    etag: clone_opt(&r.etag),
                    last_modified: clone_opt(&r.last_modified),
                };
                self.replace_feed(i, f);
            },
            None => {},
        }
    }

    fn find_entry(&self, feed_id: i64, guid: &String) -> (r: Option<usize>)
        requires
            self.wf(),
        ensures
            r matches Some(i) ==> i < self@.entries.len() && self@.entries[i as int].feed_id == feed_id
                && self@.entries[i as int].guid == guid@ && has_entry(self@, feed_id, guid@)
                && entry_pos(self@, feed_id, guid@) == i,
            r is None ==> !has_entry(self@, feed_id, guid@),
    {
        let mut i: usize = 0;
        while i < self.entries.len()
            invariant
                self.wf(),
                i <= self.entries@.len(),
                entry_rows(self.entries@).len() == self.entries@.len(),
                forall|j: int| 0 <= j < i ==> !((#[trigger] self@.entries[j]).feed_id == feed_id
                    && self@.entries[j].guid == guid@),
            decreases self.entries@.len() - i,
        {
            assert(self@.entries[i as int] == self.entries@[i as int].row());
            if self.entries[i].feed_id == feed_id && self.entries[i].guid == *guid {
                proof {
                    lemma_entry_pos(self@, i as int, feed_id, guid@);
                }
                return Some(i);
            }
            i = i + 1;
        }
        None
    }

    /// Insert or update an entry by (feed, guid). Returns `true` if the row
    /// was newly inserted. Updates keep the row's id and original
    /// `fetched_at`.
    pub fn upsert_entry(&mut self, feed_id: i64, item: &ParsedItem, fetched_at: &str) -> (r: Result<bool, StoreError>)
        requires
            old(self).wf(),
            item.published_at matches Some(i) ==> i.valid(),
        ensures
            final(self).wf(),
            (final(self)@, upsert_result_view(r)) == upsert_view(old(self)@, feed_id, item@, fetched_at@),
            has_entry(old(self)@, feed_id, item.guid@) ==> {
                let p = entry_pos(old(self)@, feed_id, item.guid@);
                &&& r matches Ok(false)
                &&& final(self)@ == (StoreV {
                    entries: old(self)@.entries.update(p, refreshed_entry(old(self)@.entries[p], item@)),
                    ..old(self)@
                })
            },
            !has_entry(old(self)@, feed_id, item.guid@) && !has_feed(old(self)@, feed_id) ==> r matches Err(
                StoreError::NotFound,
            ),
            !has_entry(old(self)@, feed_id, item.guid@) && has_feed(old(self)@, feed_id)
                && old(self)@.next_entry_id == i64::MAX ==> r matches Err(StoreError::Full),
            r is Err ==> final(self)@ == old(self)@,
            !has_entry(old(self)@, feed_id, item.guid@) && has_feed(old(self)@, feed_id)
                && old(self)@.next_entry_id < i64::MAX ==> {
                &&& r matches Ok(true)
                &&& final(self)@ == (StoreV {
                    entries: old(self)@.entries.push(
                        new_entry(old(self)@.next_entry_id, feed_id, item@, fetched_at@),
                    ),
                    next_entry_id: (old(self)@.next_entry_id + 1) as i64,
                    ..old(self)@
                })
            },
    {
        let published_at = match item.published_at {
            Some(i) => Some(format_z(i)),
            None => None,
        };
        let published_ms = match item.published_at {
            Some(i) => Some(to_millis(i)),
            None => None,
        };
        assert(opt_view(published_at) == published_text(item.published_at));
        let ghost before = self@;
        match self.find_entry(feed_id, &item.guid) {
            Some(k) => {
                assert(self@.entries[k as int] == self.entries@[k as int].row());
                let e = &self.entries[k];
                let rec = EntryRec {
                    id: e.id,
                    feed_id: e.feed_id,
                    guid: e.guid.clone(),
                    title: item.title.clone(),
                    link: clone_opt(&item.link),
                    summary: clone_opt(&item.summary),
                    published_at,
                    published_ms,
                    fetched_at: e.fetched_at.clone(),
                };
                let ghost olde = self.entries@;
                self.entries.set(k, rec);
                assert(entry_rows(self.entries@) =~= entry_rows(olde).update(k as int, rec.row()));
                proof {
                    let v = self@;
                    assert forall|a: int| 0 <= a < v.entries.len() implies has_feed(v, #[trigger] v.entries[a].feed_id) by {
                        assert(v.entries[a].feed_id == before.entries[a].feed_id);
                        assert(has_feed(before, before.entries[a].feed_id));
                    }
                    assert forall|a: int, b: int|
                        #![trigger v.entries[a], v.entries[b]]
                        0 <= a < b < v.entries.len() implies !(v.entries[a].feed_id == v.entries[b].feed_id
                            && v.entries[a].guid == v.entries[b].guid) by {
                        assert(before.entries[a] == before.entries[a]);
                        assert(before.entries[b] == before.entries[b]);
                    }
                    assert forall|a: int, b: int| 0 <= a < b < v.entries.len() implies v.entries[a].id < v.entries[b].id by {
                        assert(v.entries[a].id == before.entries[a].id);
                        assert(v.entries[b].id == before.entries[b].id);
                    }
                    assert forall|a: int| 0 <= a < v.entries.len() implies 1 <= #[trigger] v.entries[a].id < v.next_entry_id by {
                        assert(v.entries[a].id == before.entries[a].id);
                    }
                }
                Ok(false)
            },
            None => {
                if self.find_feed(feed_id).is_none() {
                    return Err(StoreError::NotFound);
                }
                if self.next_entry_id == i64::MAX {
                    return Err(StoreError::Full);
                }
                let id = self.next_entry_id;
                let rec = EntryRec {
                    id,
                    feed_id,
                    guid: item.guid.clone(),
                    title: item.title.clone(),
                    link: clone_opt(&item.link),
                    summary: clone_opt(&item.summary),
                    published_at,
                    published_ms,
                    fetched_at: fetched_at.to_owned(),
                };
                let ghost olde = self.entries@;
                self.entries.push(rec);
                self.next_entry_id = id + 1;
                assert(entry_rows(self.entries@) =~= entry_rows(olde).push(rec.row()));
                proof {
                    let v = self@;
                    assert forall|a: int| 0 <= a < v.entries.len() implies has_feed(v, #[trigger] v.entries[a].feed_id) by {
                        if a < before.entries.len() {
                            assert(v.entries[a] == before.entries[a]);
                            assert(has_feed(before, before.entries[a].feed_id));
                        }
                    }
                    assert forall|a: int, b: int|
                        #![trigger v.entries[a], v.entries[b]]
                        0 <= a < b < v.entries.len() implies !(v.entries[a].feed_id == v.entries[b].feed_id
                            && v.entries[a].guid == v.entries[b].guid) by {
                        if b == v.entries.len() - 1 {
                            assert(v.entries[a] == before.entries[a]);
                        } else {
                            assert(before.entries[a] == before.entries[a]);
                            assert(before.entries[b] == before.entries[b]);
                        }
                    }
                }
                Ok(true)
            },
        }
    }
}

pub open spec fn opt_int(o: Option<i64>) -> Option<int> {
    match o {
        Some(x) => Some(x as int),
        None => None,
    }
}

pub open spec fn since_error(s: Seq<char>) -> Seq<char> {
    "invalid 'since' date: "@ + s
}

pub open spec fn until_error(s: Seq<char>) -> Seq<char> {
    "invalid 'until' date: "@ + s
}

/// The entries a query lists, after paging: positions into the entry rows.
pub open spec fn query_page(v: StoreV, q: EntryQuery, since: Option<int>, until: Option<int>) -> Seq<int> {
    page_of(
        listing(v.entries, q.feed_id, since, until, opt_view(q.q)),
        clamp_offset(q.offset),
        clamp_limit(q.limit),
    )
}

fn precedes_exec(a: &EntryRec, b: &EntryRec) -> (r: bool)
    ensures
        r == precedes(a.row(), b.row()),
{
    match (a.published_ms, b.published_ms) {
        (Some(x), Some(y)) => x > y || (x == y && a.id < b.id),
        (Some(_), None) => true,
        (None, Some(_)) => false,
        (None, None) => a.id < b.id,
    }
}

fn matches_exec(
    e: &EntryRec,
    feed_id: Option<i64>,
    since: Option<i64>,
    until: Option<i64>,
    q_lower: &Option<Vec<char>>,
    Ghost(q): Ghost<Option<Seq<char>>>,
) -> (r: bool)
    requires
        match q {
            Some(t) => q_lower matches Some(l) && l@ == lower(t),
            None => q_lower is None,
        },
    ensures
        r == entry_matches(e.row(), feed_id, opt_int(since), opt_int(until), q),
{
    if let Some(f) = feed_id {
        if e.feed_id != f {
            return false;
        }
    }
    if let Some(lo) = since {
        match e.published_ms {
            Some(ms) => if ms < lo {
                return false;
            },
            None => return false,
        }
    }
    if let Some(hi) = until {
        match e.published_ms {
            Some(ms) => if ms >= hi {
                return false;
            },
            None => return false,
        }
    }
    match q_lower {
        Some(l) => {
            let t = str_chars(e.title.as_str());
            let tl = lower_vec(t.as_slice());
            contains_exec(tl.as_slice(), l.as_slice())
        },
        None => true,
    }
}

fn entry_of(e: &EntryRec) -> (r: Entry)
    ensures
        r@ == entry_out(e.row()),
{
    Entry {
        id: e.id,
        feed_id: e.feed_id,
        guid: e.guid.clone(),
        title: e.title.clone(),
        link: clone_opt(&e.link),
        summary: clone_opt(&e.summary),
        published_at: clone_opt(&e.published_at),
        fetched_at: e.fetched_at.clone(),
    }
}

/// The millisecond key of a bound, or `None` when it does not read as a date.
fn bound_key(b: &String) -> (r: Option<i64>)
    requires
        !date_overflows(b@),
    ensures
        opt_int(r) == bound_ms(b@),
{
    match parse_date(b.as_str()) {
        Some(i) => Some(to_millis(i)),
        None => None,
    }
}

fn error_text(prefix: &str, s: &String) -> (r: String)
    ensures
        r@ == prefix@ + s@,
{
    let mut v = str_chars(prefix);
    let w = str_chars(s.as_str());
    let mut k: usize = 0;
    while k < w.len()
        invariant
            k <= w@.len(),
            v@ == prefix@ + w@.take(k as int),
        decreases w@.len() - k,
    {
        v.push(w[k]);
        assert(w@.take(k + 1) =~= w@.take(k as int).push(w@[k as int]));
        k = k + 1;
    }
    assert(w@.take(k as int) =~= w@);
    string_of(v.as_slice())
}

impl Store {
    /// Positions of the matching entries, in id order.
    fn match_list(
        &self,
        feed_id: Option<i64>,
        since: Option<i64>,
        until: Option<i64>,
        q_lower: &Option<Vec<char>>,
        Ghost(q): Ghost<Option<Seq<char>>>,
    ) -> (r: Vec<usize>)
        requires
            self.wf(),
            match q {
                Some(t) => q_lower matches Some(l) && l@ == lower(t),
                None => q_lower is None,
            },
        ensures
            as_ints(r@) == match_positions(
                self@.entries,
                feed_id,
                opt_int(since),
                opt_int(until),
                q,
                self@.entries.len() as int,
            ),
            r@.len() <= self@.entries.len(),
            forall|j: int| 0 <= j < r@.len() ==> (#[trigger] r@[j]) < self@.entries.len(),
    {
        let ghost es = self@.entries;
        let mut out: Vec<usize> = Vec::new();
        let mut k: usize = 0;
        assert(as_ints(out@) =~= Seq::<int>::empty());
        while k < self.entries.len()
            invariant
                es == self@.entries,
                es.len() == self.entries@.len(),
                k <= es.len(),
                out@.len() <= k,
                forall|j: int| 0 <= j < out@.len() ==> (#[trigger] out@[j]) < es.len(),
                as_ints(out@) == match_positions(es, feed_id, opt_int(since), opt_int(until), q, k as int),
                match q {
                    Some(t) => q_lower matches Some(l) && l@ == lower(t),
                    None => q_lower is None,
                },
            decreases es.len() - k,
        {
            assert(es[k as int] == self.entries@[k as int].row());
            if matches_exec(&self.entries[k], feed_id, since, until, q_lower, Ghost(q)) {
                let ghost before = as_ints(out@);
                out.push(k);
                assert(as_ints(out@) =~= before.push(k as int));
            }
            k = k + 1;
        }
        out
    }

    /// Order positions for listing (insertion into the listing order).
    fn order_list(&self, positions: &Vec<usize>) -> (r: Vec<usize>)
        requires
            self.wf(),
            forall|j: int| 0 <= j < positions@.len() ==> (#[trigger] positions@[j]) < self@.entries.len(),
        ensures
            as_ints(r@) == order_positions(self@.entries, as_ints(positions@)),
            r@.len() == positions@.len(),
            forall|j: int| 0 <= j < r@.len() ==> (#[trigger] r@[j]) < self@.entries.len(),
    {
        let ghost es = self@.entries;
        let ghost ps = as_ints(positions@);
        let mut ordered: Vec<usize> = Vec::new();
        let mut t: usize = 0;
        assert(ps.take(0) =~= Seq::<int>::empty());
        assert(as_ints(ordered@) =~= Seq::<int>::empty());
        while t < positions.len()
            invariant
                es == self@.entries,
                es.len() == self.entries@.len(),
                ps == as_ints(positions@),
                t <= positions@.len(),
                ordered@.len() == t,
                forall|j: int| 0 <= j < positions@.len() ==> (#[trigger] positions@[j]) < es.len(),
                forall|j: int| 0 <= j < ordered@.len() ==> (#[trigger] ordered@[j]) < es.len(),
                as_ints(ordered@) == order_positions(es, ps.take(t as int)),
            decreases positions@.len() - t,
        {
            let x = positions[t];
            let mut p: usize = 0;
            assert(es[x as int] == self.entries@[x as int].row());
            while p < ordered.len() && !precedes_exec(&self.entries[x], &self.entries[ordered[p]])
                invariant
                    es == self@.entries,
                    es.len() == self.entries@.len(),
                    x < es.len(),
                    p <= ordered@.len(),
                    forall|j: int| 0 <= j < ordered@.len() ==> (#[trigger] ordered@[j]) < es.len(),
                    forall|j: int| 0 <= j < p ==> !precedes(es[x as int], #[trigger] es[as_ints(ordered@)[j]]),
                decreases ordered@.len() - p,
            {
                assert(es[ordered@[p as int] as int] == self.entries@[ordered@[p as int] as int].row());
                p = p + 1;
            }
            proof {
                if p < ordered@.len() {
                    assert(es[ordered@[p as int] as int] == self.entries@[ordered@[p as int] as int].row());
                }
                lemma_insert_ordered(es, as_ints(ordered@), x as int, p as int);
            }
            let ghost before = as_ints(ordered@);
            ordered.insert(p, x);
            assert(as_ints(ordered@) =~= before.insert(p as int, x as int));
            assert(ps.take(t + 1).drop_last() =~= ps.take(t as int));
            assert(ps.take(t + 1).last() == x as int);
            t = t + 1;
        }
        assert(ps.take(t as int) =~= ps);
        ordered
    }

    /// Query entries with filtering, ordering, and pagination. Returns
    /// `(total, items)` where `total` ignores limit/offset.
    pub fn query_entries(&self, q: &EntryQuery) -> (r: Result<(i64, Vec<Entry>), StoreError>)
        requires
            self.wf(),
            q.since matches Some(s) ==> !date_overflows(s@),
            q.until matches Some(u) ==> !date_overflows(u@),
        ensures
            query_bound(opt_view(q.since)) is None ==> (r matches Err(StoreError::Parse(m)) && m@
                == since_error(opt_view(q.since)->0)),
            query_bound(opt_view(q.since)) is Some && query_bound(opt_view(q.until)) is None ==> (r matches Err(
                StoreError::Parse(m),
            ) && m@ == until_error(opt_view(q.until)->0)),
            query_bound(opt_view(q.since)) matches Some(since) ==> query_bound(opt_view(q.until)) matches Some(
                until,
            ) ==> (r matches Ok((total, items)) && {
                let es = self@.entries;
                let page = query_page(self@, *q, since, until);
                &&& total == match_positions(es, q.feed_id, since, until, opt_view(q.q), es.len() as int).len()
                &&& items@.len() == page.len()
                &&& forall|i: int| 0 <= i < items@.len() ==> (#[trigger] items@[i])@ == entry_out(es[page[i]])
            }),
    {
        let since: Option<i64> = match &q.since {
            Some(s) => match bound_key(s) {
                Some(ms) => Some(ms),
                None => return Err(StoreError::Parse(error_text("invalid 'since' date: ", s))),
            },
            None => None,
        };
        let until: Option<i64> = match &q.until {
            Some(u) => match bound_key(u) {
                Some(ms) => Some(ms),
                None => return Err(StoreError::Parse(error_text("invalid 'until' date: ", u))),
            },
            None => None,
        };
        let q_lower: Option<Vec<char>> = match &q.q {
            Some(t) => {
                let tv = str_chars(t.as_str());
                Some(lower_vec(tv.as_slice()))
            },
            None => None,
        };
        let ghost es = self@.entries;
        let positions = self.match_list(q.feed_id, since, until, &q_lower, Ghost(opt_view(q.q)));
        let ordered = self.order_list(&positions);
        let ghost lst = as_ints(ordered@);
        assert(lst == listing(es, q.feed_id, opt_int(since), opt_int(until), opt_view(q.q)));
        let total = positions.len() as i64;
        let lim: usize = if q.limit < 0 {
            0
        } else if q.limit > 500 {
            500
        } else {
            q.limit as usize
        };
        let mut items: Vec<Entry> = Vec::new();
        let n = ordered.len();
        let off64: i64 = if q.offset < 0 {
            0
        } else {
            q.offset
        };
        if (off64 as u64) < (n as u64) {
            let off = off64 as usize;
            let remaining = n - off;
            let take = if lim >= remaining {
                remaining
            } else {
                lim
            };
            let ghost page = query_page(self@, *q, opt_int(since), opt_int(until));
            assert(page.len() == take);
            let mut j: usize = 0;
            while j < take
                invariant
                    es == self@.entries,
                    es.len() == self.entries@.len(),
                    off + take <= n,
                    n == ordered@.len(),
                    lst == as_ints(ordered@),
                    page.len() == take,
                    forall|i: int| 0 <= i < take ==> page[i] == lst[off + i],
                    forall|i: int| 0 <= i < ordered@.len() ==> (#[trigger] ordered@[i]) < es.len(),
                    j <= take,
                    items@.len() == j,
                    forall|i: int| 0 <= i < j ==> (#[trigger] items@[i])@ == entry_out(es[page[i]]),
                decreases take - j,
            {
                let x = ordered[off + j];
                assert(es[x as int] == self.entries@[x as int].row());
                items.push(entry_of(&self.entries[x]));
                j = j + 1;
            }
        } else {
            let ghost page = query_page(self@, *q, opt_int(since), opt_int(until));
            assert(page.len() == 0);
        }
        Ok((total, items))
    }
}

// ---------------------------------------------------------------- laws

/// Entries are listed in `precedes` order.
pub open spec fn listed_in_order(es: Seq<StoredEntry>, s: Seq<int>) -> bool {
    forall|i: int, j: int| 0 <= i < j < s.len() ==> precedes(es[s[i]], es[s[j]])
}

/// Distinct positions that index into the rows.
pub open spec fn distinct_positions(es: Seq<StoredEntry>, s: Seq<int>) -> bool {
    &&& forall|i: int| 0 <= i < s.len() ==> 0 <= #[trigger] s[i] < es.len()
    &&& forall|i: int, j: int| 0 <= i < j < s.len() ==> s[i] != s[j]
}

proof fn lemma_precedes_facts(a: StoredEntry, b: StoredEntry, c: StoredEntry)
    ensures
        !precedes(a, a),
        precedes(a, b) && precedes(b, c) ==> precedes(a, c),
        a.id != b.id ==> (precedes(a, b) || precedes(b, a)),
        !(precedes(a, b) && precedes(b, a)),
{
}

proof fn lemma_insert_ordered_props(es: Seq<StoredEntry>, r: Seq<int>, x: int)
    requires
        listed_in_order(es, r),
        forall|i: int| 0 <= i < r.len() ==> es[r[i]].id != es[x].id,
    ensures
        insert_ordered(es, r, x).len() == r.len() + 1,
        forall|y: int|
            #![trigger insert_ordered(es, r, x).contains(y)]
            #![trigger r.contains(y)]
            insert_ordered(es, r, x).contains(y) <==> (y == x || r.contains(y)),
        listed_in_order(es, insert_ordered(es, r, x)),
    decreases r.len(),
{
    let out = insert_ordered(es, r, x);
    if r.len() == 0 {
        assert(out =~= seq![x]);
        assert forall|y: int| out.contains(y) <==> (y == x || r.contains(y)) by {
            if out.contains(y) {
                let k = choose|k: int| 0 <= k < out.len() && out[k] == y;
            }
            if y == x {
                assert(out[0] == x);
            }
        }
    } else if precedes(es[x], es[r[0]]) {
        assert(out =~= seq![x] + r);
        assert forall|i: int, j: int| 0 <= i < j < out.len() implies precedes(es[out[i]], es[out[j]]) by {
            if i == 0 {
                if j > 1 {
                    lemma_precedes_facts(es[x], es[r[0]], es[r[j - 1]]);
                }
            } else {
                assert(out[i] == r[i - 1] && out[j] == r[j - 1]);
            }
        }
        assert forall|y: int| out.contains(y) <==> (y == x || r.contains(y)) by {
            if out.contains(y) {
                let k = choose|k: int| 0 <= k < out.len() && out[k] == y;
                if k > 0 {
                    assert(r[k - 1] == y);
                }
            }
            if y == x {
                assert(out[0] == x);
            }
            if r.contains(y) {
                let k = choose|k: int| 0 <= k < r.len() && r[k] == y;
                assert(out[k + 1] == y);
            }
        }
    } else {
        let d = r.drop_first();
        assert forall|i: int, j: int| 0 <= i < j < d.len() implies precedes(es[d[i]], es[d[j]]) by {
            assert(d[i] == r[i + 1] && d[j] == r[j + 1]);
        }
        assert forall|i: int| 0 <= i < d.len() implies es[d[i]].id != es[x].id by {
            assert(d[i] == r[i + 1]);
        }
        lemma_insert_ordered_props(es, d, x);
        let rest = insert_ordered(es, d, x);
        assert(out =~= seq![r[0]] + rest);
        lemma_precedes_facts(es[r[0]], es[x], es[x]);
        assert(precedes(es[r[0]], es[x]));
        assert forall|k: int| 0 <= k < rest.len() implies precedes(es[r[0]], es[rest[k]]) by {
            assert(rest.contains(rest[k]));
            if rest[k] != x {
                assert(d.contains(rest[k]));
                let m = choose|m: int| 0 <= m < d.len() && d[m] == rest[k];
                assert(d[m] == r[m + 1]);
            }
        }
        assert forall|i: int, j: int| 0 <= i < j < out.len() implies precedes(es[out[i]], es[out[j]]) by {
            if i == 0 {
                assert(out[j] == rest[j - 1]);
            } else {
                assert(out[i] == rest[i - 1] && out[j] == rest[j - 1]);
            }
        }
        assert forall|y: int| out.contains(y) <==> (y == x || r.contains(y)) by {
            if out.contains(y) {
                let k = choose|k: int| 0 <= k < out.len() && out[k] == y;
                if k > 0 {
                    assert(rest[k - 1] == y);
                    assert(rest.contains(y));
                    if y != x {
                        assert(d.contains(y));
                        let m = choose|m: int| 0 <= m < d.len() && d[m] == y;
                        assert(r[m + 1] == y);
                    }
                } else {
                    assert(r[0] == y);
                }
            }
            if y == x {
                assert(rest.contains(x));
                let m = choose|m: int| 0 <= m < rest.len() && rest[m] == x;
                assert(out[m + 1] == x);
            }
            if r.contains(y) {
                let k = choose|k: int| 0 <= k < r.len() && r[k] == y;
                if k == 0 {
                    assert(out[0] == y);
                } else {
                    assert(d[k - 1] == y);
                    assert(d.contains(y));
                    assert(rest.contains(y));
                    let m = choose|m: int| 0 <= m < rest.len() && rest[m] == y;
                    assert(out[m + 1] == y);
                }
            }
        }
    }
}

proof fn lemma_order_positions_props(es: Seq<StoredEntry>, s: Seq<int>)
    requires
        distinct_positions(es, s),
        forall|a: int, b: int| 0 <= a < b < es.len() ==> es[a].id != es[b].id,
    ensures
        order_positions(es, s).len() == s.len(),
        forall|y: int|
            #![trigger order_positions(es, s).contains(y)]
            #![trigger s.contains(y)]
            order_positions(es, s).contains(y) <==> s.contains(y),
        listed_in_order(es, order_positions(es, s)),
    decreases s.len(),
{
    if s.len() > 0 {
        let d = s.drop_last();
        assert(distinct_positions(es, d)) by {
            assert forall|i: int| 0 <= i < d.len() implies 0 <= #[trigger] d[i] < es.len() by {
                assert(d[i] == s[i]);
            }
            assert forall|i: int, j: int| 0 <= i < j < d.len() implies d[i] != d[j] by {
                assert(d[i] == s[i] && d[j] == s[j]);
            }
        }
        lemma_order_positions_props(es, d);
        let r = order_positions(es, d);
        let x = s.last();
        assert forall|i: int| 0 <= i < r.len() implies es[r[i]].id != es[x].id by {
            assert(r.contains(r[i]));
            assert(d.contains(r[i]));
            let m = choose|m: int| 0 <= m < d.len() && d[m] == r[i];
            assert(s[m] == r[i]);
            assert(s[m] != s[s.len() - 1]);
            assert(0 <= s[m] < es.len());
            assert(0 <= s[s.len() - 1] < es.len());
        }
        lemma_insert_ordered_props(es, r, x);
        assert forall|y: int| order_positions(es, s).contains(y) <==> s.contains(y) by {
            if s.contains(y) {
                let k = choose|k: int| 0 <= k < s.len() && s[k] == y;
                if k < s.len() - 1 {
                    assert(d[k] == y);
                    assert(d.contains(y));
                }
            }
            if d.contains(y) {
                let k = choose|k: int| 0 <= k < d.len() && d[k] == y;
                assert(s[k] == y);
            }
        }
    }
}

proof fn lemma_match_positions_props(
    es: Seq<StoredEntry>,
    feed_id: Option<i64>,
    since: Option<int>,
    until: Option<int>,
    q: Option<Seq<char>>,
    n: int,
)
    requires
        0 <= n <= es.len(),
    ensures
        forall|i: int, j: int|
            0 <= i < j < match_positions(es, feed_id, since, until, q, n).len() ==> match_positions(
                es,
                feed_id,
                since,
                until,
                q,
                n,
            )[i] < match_positions(es, feed_id, since, until, q, n)[j],
        forall|i: int|
            0 <= i < match_positions(es, feed_id, since, until, q, n).len() ==> 0 <= #[trigger] match_positions(
                es,
                feed_id,
                since,
                until,
                q,
                n,
            )[i] < n,
        forall|k: int|
            match_positions(es, feed_id, since, until, q, n).contains(k) <==> (0 <= k < n && entry_matches(
                es[k],
                feed_id,
                since,
                until,
                q,
            )),
    decreases n,
{
    if n > 0 {
        lemma_match_positions_props(es, feed_id, since, until, q, n - 1);
        let r = match_positions(es, feed_id, since, until, q, n - 1);
        let out = match_positions(es, feed_id, since, until, q, n);
        assert forall|k: int| out.contains(k) <==> (0 <= k < n && entry_matches(es[k], feed_id, since, until, q)) by {
            if entry_matches(es[n - 1], feed_id, since, until, q) {
                assert(out == r.push(n - 1));
                if out.contains(k) {
                    let m = choose|m: int| 0 <= m < out.len() && out[m] == k;
                    if m < r.len() {
                        assert(r[m] == k);
                        assert(r.contains(k));
                    }
                }
                if 0 <= k < n && entry_matches(es[k], feed_id, since, until, q) {
                    if k == n - 1 {
                        assert(out[r.len() as int] == k);
                    } else {
                        assert(r.contains(k));
                        let m = choose|m: int| 0 <= m < r.len() && r[m] == k;
                        assert(out[m] == k);
                    }
                }
            }
        }
    }
}

/// The entries listing is ordered newest first, undated entries last, and
/// entries with equal dates by ascending id; it lists exactly the matching
/// entries, each once.
pub proof fn law_listing_order(
    v: StoreV,
    feed_id: Option<i64>,
    since: Option<int>,
    until: Option<int>,
    q: Option<Seq<char>>,
)
    requires
        store_wf(v),
    ensures
        listed_in_order(v.entries, listing(v.entries, feed_id, since, until, q)),
        forall|k: int|
            listing(v.entries, feed_id, since, until, q).contains(k) <==> (0 <= k < v.entries.len()
                && entry_matches(v.entries[k], feed_id, since, until, q)),
        listing(v.entries, feed_id, since, until, q).len() == match_positions(
            v.entries,
            feed_id,
            since,
            until,
            q,
            v.entries.len() as int,
        ).len(),
{
    let es = v.entries;
    let n = es.len() as int;
    lemma_match_positions_props(es, feed_id, since, until, q, n);
    let s = match_positions(es, feed_id, since, until, q, n);
    assert(distinct_positions(es, s));
    assert forall|a: int, b: int| 0 <= a < b < es.len() implies es[a].id != es[b].id by {}
    lemma_order_positions_props(es, s);
    assert forall|k: int|
        listing(v.entries, feed_id, since, until, q).contains(k) <==> (0 <= k < v.entries.len()
            && entry_matches(v.entries[k], feed_id, since, until, q)) by {
        assert(order_positions(es, s).contains(k) <==> s.contains(k));
    }
}

/// Upserting an item that is already stored changes nothing and inserts
/// nothing: re-fetching identical content is a no-op.
pub proof fn law_upsert_idempotent(v: StoreV, feed_id: i64, item: ItemV, t1: Seq<char>, t2: Seq<char>)
    requires
        store_wf(v),
        upsert_view(v, feed_id, item, t1).1 is Ok,
    ensures
        upsert_view(upsert_view(v, feed_id, item, t1).0, feed_id, item, t2) == (
            upsert_view(v, feed_id, item, t1).0,
            Ok::<bool, StoreErrorV>(false),
        ),
{
    let w = upsert_view(v, feed_id, item, t1).0;
    if has_entry(v, feed_id, item.guid) {
        let p = entry_pos(v, feed_id, item.guid);
        assert(w.entries[p].feed_id == feed_id && w.entries[p].guid == item.guid);
        assert(has_entry(w, feed_id, item.guid));
        let p2 = entry_pos(w, feed_id, item.guid);
        assert(w.entries[p2].feed_id == feed_id && w.entries[p2].guid == item.guid);
        if p2 != p {
            assert(w.entries[p2] == v.entries[p2]);
            assert(v.entries[p].feed_id == feed_id && v.entries[p].guid == item.guid);
            if p2 < p {
                assert(v.entries[p2] == v.entries[p2]);
                assert(v.entries[p] == v.entries[p]);
            } else {
                assert(v.entries[p2] == v.entries[p2]);
                assert(v.entries[p] == v.entries[p]);
            }
            assert(false);
        }
        assert(w.entries.update(p2, refreshed_entry(w.entries[p2], item)) =~= w.entries);
    } else {
        let p = v.entries.len() as int;
        assert(w.entries[p].feed_id == feed_id && w.entries[p].guid == item.guid);
        assert(has_entry(w, feed_id, item.guid));
        let p2 = entry_pos(w, feed_id, item.guid);
        if p2 != p {
            assert(w.entries[p2] == v.entries[p2]);
            assert(has_entry(v, feed_id, item.guid));
        }
        assert(w.entries.update(p2, refreshed_entry(w.entries[p2], item)) =~= w.entries);
    }
}

/// Deleting a feed removes all of its entries and keeps every other
/// feed's entries.
pub proof fn law_delete_cascades(v: StoreV, id: i64)
    ensures
        forall|i: int|
            0 <= i < v.entries.filter(keep_entry(id)).len() ==> (#[trigger] v.entries.filter(keep_entry(id))[i]).feed_id != id,
        forall|i: int|
            0 <= i < v.entries.len() && v.entries[i].feed_id != id ==> v.entries.filter(keep_entry(id)).contains(
                #[trigger] v.entries[i],
            ),
{
    broadcast use vstd::seq_lib::group_filter_ensures;

    assert forall|i: int| 0 <= i < v.entries.filter(keep_entry(id)).len() implies (
    #[trigger] v.entries.filter(keep_entry(id))[i]).feed_id != id by {
        v.entries.lemma_filter_pred(keep_entry(id), i);
    }
}

/// Whether a title search matches depends only on the ASCII lower case of
/// the query: search folds ASCII case.
pub proof fn law_search_folds_case(e: StoredEntry, feed_id: Option<i64>, since: Option<int>, until: Option<int>, q1: Seq<char>, q2: Seq<char>)
    requires
        lower(q1) == lower(q2),
    ensures
        entry_matches(e, feed_id, since, until, Some(q1)) == entry_matches(e, feed_id, since, until, Some(q2)),
{
}

/// Any date bound leaves out undated entries; the window is `since`
/// inclusive and `until` exclusive.
pub proof fn law_window(e: StoredEntry, feed_id: Option<i64>, since: Option<int>, until: Option<int>, q: Option<Seq<char>>)
    ensures
        (since is Some || until is Some) && e.published_ms is None ==> !entry_matches(e, feed_id, since, until, q),
        entry_matches(e, feed_id, since, until, q) && since is Some ==> e.published_ms->0 >= since->0,
        entry_matches(e, feed_id, since, until, q) && until is Some ==> e.published_ms->0 < until->0,
{
}

/// A feed that was just added can be read back: it exists, at the end of
/// the feed list, with the URL it was added under and no entries.
pub proof fn law_added_feed_found(v: StoreV, row: StoredFeed)
    requires
        store_wf(v),
        store_wf(StoreV { feeds: v.feeds.push(row), next_feed_id: (v.next_feed_id + 1) as i64, ..v }),
        row.id == v.next_feed_id,
    ensures
        ({
            let w = StoreV { feeds: v.feeds.push(row), next_feed_id: (v.next_feed_id + 1) as i64, ..v };
            has_feed(w, row.id) && w.feeds[feed_pos(w, row.id)] == row
        }),
{
    let w = StoreV { feeds: v.feeds.push(row), next_feed_id: (v.next_feed_id + 1) as i64, ..v };
    lemma_feed_pos(w, v.feeds.len() as int, row.id);
}

} // verus!
