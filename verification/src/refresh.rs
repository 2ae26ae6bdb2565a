//! Feed refresh: what a fetch outcome does to the store and what the
//! refresh reports. The fetch itself (the network) happens outside.
use vstd::prelude::*;
use crate::dto::RefreshResult;
use crate::feed::{
    dates_valid, doc_dates_in_range, feed_of, items_view, parse_error_text, try_parse_feed, FeedV,
    ParseErrorV,
};
use crate::feed::{ItemV, ParsedItem};
use crate::model::{ParsedEntry, ParsedEntryV, ParsedFeed};
use crate::store::{
    after_failure, entry_pos, has_entry, after_error, after_not_modified, after_success, feed_pos, has_feed, str_opt, upsert_items, upsert_view,
    with_feed, Store, StoreError, StoreV,
};
use crate::text::opt_view;

verus! {

/// What a conditional GET brought back.
#[derive(Clone, Debug)]
pub enum FetchOutcome {
    /// `304 Not Modified`.
    NotModified,
    /// A body, with the validators to send next time.
    Fetched { body: Vec<u8>, etag: Option<String>, last_modified: Option<String> },
}

/// The store after a failed fetch or parse of a feed.
pub open spec fn failed(v: StoreV, id: i64, now: Seq<char>, msg: Seq<char>) -> StoreV {
    if has_feed(v, id) {
        with_feed(v, id, after_error(v.feeds[feed_pos(v, id)], now, msg))
    } else {
        v
    }
}

/// The store after a failure recorded without touching the fetch time.
pub open spec fn failed_keeping_time(v: StoreV, id: i64, msg: Seq<char>) -> StoreV {
    if has_feed(v, id) {
        with_feed(v, id, after_failure(v.feeds[feed_pos(v, id)], msg))
    } else {
        v
    }
}

/// The store after a `304 Not Modified`.
pub open spec fn unchanged_upstream(v: StoreV, id: i64, now: Seq<char>) -> StoreV {
    if has_feed(v, id) {
        with_feed(v, id, after_not_modified(v.feeds[feed_pos(v, id)], now))
    } else {
        v
    }
}

/// The store after a successful fetch whose entries are already stored.
pub open spec fn succeeded(
    v: StoreV,
    id: i64,
    title: Option<Seq<char>>,
    now: Seq<char>,
    etag: Option<Seq<char>>,
    last_modified: Option<Seq<char>>,
) -> StoreV {
    if has_feed(v, id) {
        with_feed(v, id, after_success(v.feeds[feed_pos(v, id)], title, now, etag, last_modified))
    } else {
        v
    }
}

proof fn lemma_upsert_items_ids(v: StoreV, id: i64, items: Seq<crate::feed::ItemV>, now: Seq<char>)
    ensures
        upsert_items(v, id, items, now).0.next_entry_id == v.next_entry_id + upsert_items(v, id, items, now).1,
        upsert_items(v, id, items, now).1 >= 0,
    decreases items.len(),
{
    if items.len() > 0 {
        lemma_upsert_items_ids(v, id, items.drop_last(), now);
    }
}

fn opt_str(o: &Option<String>) -> (r: Option<&str>)
    ensures
        crate::store::str_opt(r) == opt_view(*o),
{
    match o {
        Some(s) => Some(s.as_str()),
        None => None,
    }
}

/// Apply what a fetch brought back to the store and report the refresh.
///
/// A fetch error or a parse error is recorded on the feed; a `304` counts as
/// a success that leaves the entries alone; a parsed body upserts its items
/// in order and then records the success (title only when the document had
/// one). `None` when the body holds an item date beyond the calendar's range,
/// which leaves the store unchanged.
pub fn finish_refresh(store: &mut Store, feed_id: i64, outcome: Result<FetchOutcome, String>, now: &str) -> (r: Option<RefreshResult>)
    requires
        old(store).wf(),
    ensures
        final(store).wf(),
        match outcome {
            Err(msg) => {
                &&& final(store)@ == failed(old(store)@, feed_id, now@, msg@)
                &&& r matches Some(res) && res.feed_id == feed_id && res.status@ == "error"@
                    && res.new_entries == 0 && res.not_modified is None && res.error == Some(msg)
            },
            Ok(FetchOutcome::NotModified) => {
                &&& final(store)@ == unchanged_upstream(old(store)@, feed_id, now@)
                &&& r matches Some(res) && res.feed_id == feed_id && res.status@ == "ok"@
                    && res.new_entries == 0 && res.not_modified == Some(true) && res.error is None
            },
            Ok(FetchOutcome::Fetched { body, etag, last_modified }) => if !doc_dates_in_range(body@) {
                r is None && final(store)@ == old(store)@
            } else {
                match feed_of(body@) {
                    Err(e) => {
                        &&& final(store)@ == failed(old(store)@, feed_id, now@, parse_error_text(e))
                        &&& r matches Some(res) && res.feed_id == feed_id && res.status@ == "error"@
                            && res.new_entries == 0 && res.not_modified is None && opt_view(res.error)
                            == Some(parse_error_text(e))
                    },
                    Ok(f) => {
                        let up = upsert_items(old(store)@, feed_id, f.items, now@);
                        &&& final(store)@ == succeeded(up.0, feed_id, f.title, now@, opt_view(etag), opt_view(last_modified))
                        &&& r matches Some(res) && res.feed_id == feed_id && res.status@ == "ok"@
                            && res.new_entries == up.1 && res.not_modified is None && res.error is None
                    },
                }
            },
        },
{
    match outcome {
        Err(msg) => {
            store.record_error(feed_id, now, msg.as_str());
            Some(RefreshResult::error(feed_id, msg))
        },
        Ok(FetchOutcome::NotModified) => {
            store.record_not_modified(feed_id, now);
            Some(RefreshResult::not_modified(feed_id))
        },
        Ok(FetchOutcome::Fetched { body, etag, last_modified }) => {
            match try_parse_feed(body.as_slice()) {
                None => None,
                Some(Err(e)) => {
                    let msg = e.message();
                    store.record_error(feed_id, now, msg.as_str());
                    Some(RefreshResult::error(feed_id, msg))
                },
                Some(Ok(parsed)) => {
                    let ghost v0 = store@;
                    let ghost items = items_view(parsed.items@);
                    let mut n: i64 = 0;
                    let mut k: usize = 0;
                    assert(items.take(0) =~= Seq::<crate::feed::ItemV>::empty());
                    while k < parsed.items.len()
                        invariant
                            store.wf(),
                            items == items_view(parsed.items@),
                            items.len() == parsed.items@.len(),
                            dates_valid(items),
                            k <= parsed.items@.len(),
                            (store@, n as int) == upsert_items(v0, feed_id, items.take(k as int), now@),
                            v0.next_entry_id >= 1,
                        decreases parsed.items@.len() - k,
                    {
                        assert(items[k as int] == parsed.items@[k as int]@);
                        assert(items.take(k + 1).drop_last() =~= items.take(k as int));
                        assert(items.take(k + 1).last() == items[k as int]);
                        proof {
                            lemma_upsert_items_ids(v0, feed_id, items.take(k as int), now@);
                        }
                        let ghost before = store@;
                        let res = store.upsert_entry(feed_id, &parsed.items[k], now);
                        match res {
                            Ok(true) => {
                                assert(before.next_entry_id < i64::MAX);
                                n = n + 1;
                            },
                            _ => {},
                        }
                        k = k + 1;
                    }
                    assert(items.take(k as int) =~= items);
                    store.record_success(
                        feed_id,
                        opt_str(&parsed.title),
                        now,
                        opt_str(&etag),
                        opt_str(&last_modified),
                    );
                    Some(RefreshResult::ok(feed_id, n))
                },
            }
        },
    }
}

/// How many entries a successful fetch created and how many it updated.
#[derive(Clone, Copy, Debug, Default, PartialEq, Eq, Structural)]
pub struct ApplyCounts {
    pub new_entries: i64,
    pub updated_entries: i64,
}

/// A parsed entry as the store takes it.
pub open spec fn item_of(e: ParsedEntryV) -> ItemV {
    ItemV { guid: e.guid, title: e.title, link: e.link, summary: e.summary, published_at: e.published_at }
}

/// The entries of a parsed document as the store takes them.
pub open spec fn fetched_items(es: Seq<ParsedEntryV>) -> Seq<ItemV> {
    es.map_values(|e: ParsedEntryV| item_of(e))
}

fn opt_clone(o: &Option<String>) -> (r: Option<String>)
    ensures
        opt_view(r) == opt_view(*o),
{
    match o {
        Some(s) => Some(s.clone()),
        None => None,
    }
}

fn item_from(e: &ParsedEntry) -> (r: ParsedItem)
    ensures
        r@ == item_of(e@),
{
    ParsedItem {
        guid: e.guid.clone(),
        title: e.title.clone(),
        link: opt_clone(&e.link),
        summary: opt_clone(&e.summary),
        published_at: e.published_at,
    }
}

proof fn lemma_upsert_items_shape(v: StoreV, id: i64, items: Seq<ItemV>, now: Seq<char>)
    ensures
        upsert_items(v, id, items, now).0.feeds == v.feeds,
        upsert_items(v, id, items, now).1 <= items.len(),
    decreases items.len(),
{
    if items.len() > 0 {
        lemma_upsert_items_shape(v, id, items.drop_last(), now);
    }
}

/// Store a successfully parsed document: upsert its entries in order (a
/// known identity updates in place, keeping its id and first fetch time),
/// then refresh the feed's title (only when the document had one) and
/// validators and clear its error.
///
/// A missing feed is `NotFound`; a store without ids left for as many new
/// entries as the document carries is `Full`. Either leaves the store as it
/// was.
pub fn apply_fetch(
    store: &mut Store,
    id: i64,
    parsed: &ParsedFeed,
    etag: Option<&str>,
    last_modified: Option<&str>,
    now: &str,
) -> (r: Result<ApplyCounts, StoreError>)
    requires
        old(store).wf(),
        crate::parser::dates_valid(parsed@.entries),
    ensures
        final(store).wf(),
        !has_feed(old(store)@, id) ==> (r matches Err(StoreError::NotFound)) && final(store)@ == old(store)@,
        has_feed(old(store)@, id) && old(store)@.next_entry_id + parsed@.entries.len() > i64::MAX ==> (r matches Err(
            StoreError::Full,
        )) && final(store)@ == old(store)@,
        has_feed(old(store)@, id) && old(store)@.next_entry_id + parsed@.entries.len() <= i64::MAX ==> {
            let up = upsert_items(old(store)@, id, fetched_items(parsed@.entries), now@);
            &&& final(store)@ == succeeded(up.0, id, parsed@.title, now@, str_opt(etag), str_opt(last_modified))
            &&& r matches Ok(c) && c.new_entries == up.1 && c.updated_entries == parsed@.entries.len() - up.1
        },
{
    if !store.has_feed_id(id) {
        return Err(StoreError::NotFound);
    }
    if store.next_entry_id_value() as i128 + parsed.entries.len() as i128 > i64::MAX as i128 {
        return Err(StoreError::Full);
    }
    let c = upsert_all(store, id, &parsed.entries, now);
    let title: Option<&str> = match &parsed.title {
        Some(t) => Some(t.as_str()),
        None => None,
    };
    store.record_success(id, title, now, etag, last_modified);
    Ok(c)
}

/// Upsert entries in order into a feed with room for all of them, counting
/// the new and the updated ones.
pub(crate) fn upsert_all(store: &mut Store, id: i64, entries: &Vec<ParsedEntry>, now: &str) -> (r: ApplyCounts)
    requires
        old(store).wf(),
        has_feed(old(store)@, id),
        old(store)@.next_entry_id + entries@.len() <= i64::MAX,
        crate::parser::dates_valid(crate::model::parsed_entries_view(entries@)),
    ensures
        final(store).wf(),
        ({
            let up = upsert_items(old(store)@, id, fetched_items(crate::model::parsed_entries_view(entries@)), now@);
            &&& final(store)@ == up.0
            &&& r.new_entries == up.1
            &&& r.updated_entries == entries@.len() - up.1
            &&& 0 <= up.1 <= entries@.len()
            &&& up.0.feeds == old(store)@.feeds
        }),
{
    let len = entries.len();
    let ghost v0 = store@;
    let ghost ev = crate::model::parsed_entries_view(entries@);
    let ghost items = fetched_items(ev);
    let mut n: i64 = 0;
    let mut u: i64 = 0;
    let mut k: usize = 0;
    assert(items.take(0) =~= Seq::<ItemV>::empty());
    while k < len
        invariant
            store.wf(),
            len == entries@.len(),
            ev == crate::model::parsed_entries_view(entries@),
            items == fetched_items(ev),
            items.len() == len,
            crate::parser::dates_valid(ev),
            has_feed(v0, id),
            v0.next_entry_id + len <= i64::MAX,
            k <= len,
            (store@, n as int) == upsert_items(v0, id, items.take(k as int), now@),
            u == k - n,
            v0.next_entry_id >= 1,
        decreases len - k,
    {
        assert(items.take(k + 1).drop_last() =~= items.take(k as int));
        assert(items.take(k + 1).last() == items[k as int]);
        proof {
            crate::refresh::lemma_upsert_items_ids(v0, id, items.take(k as int), now@);
            lemma_upsert_items_shape(v0, id, items.take(k as int), now@);
            assert(ev[k as int] == entries@[k as int]@);
        }
        let item = item_from(&entries[k]);
        assert(item@ == items[k as int]);
        let res = store.upsert_entry(id, &item, now);
        match res {
            Ok(true) => {
                n = n + 1;
            },
            Ok(false) => {
                u = u + 1;
            },
            Err(_) => {
                assert(false);
            },
        }
        k = k + 1;
    }
    assert(items.take(k as int) =~= items);
    proof {
        lemma_upsert_items_shape(v0, id, items, now@);
        lemma_upsert_items_ids(v0, id, items, now@);
    }
    ApplyCounts { new_entries: n, updated_entries: u }
}

/// The report of a refresh that failed with the given message.
pub open spec fn failed_report(r: crate::api::RefreshResult, id: i64, msg: Seq<char>) -> bool {
    &&& r.feed_id == id
    &&& r.status@ == "error"@
    &&& r.new_entries == 0
    &&& r.updated_entries == 0
    &&& !r.not_modified
    &&& opt_view(r.error) == Some(msg)
}

/// The report of a successful refresh.
pub open spec fn ok_report(r: crate::api::RefreshResult, id: i64, new: int, updated: int, not_modified: bool) -> bool {
    &&& r.feed_id == id
    &&& r.status@ == "ok"@
    &&& r.new_entries == new
    &&& r.updated_entries == updated
    &&& r.not_modified == not_modified
    &&& r.error is None
}

fn ok_result(feed_id: i64, counts: ApplyCounts, not_modified: bool) -> (r: crate::api::RefreshResult)
    ensures
        ok_report(r, feed_id, counts.new_entries as int, counts.updated_entries as int, not_modified),
{
    crate::api::RefreshResult {
        feed_id,
        status: "ok".to_owned(),
        new_entries: counts.new_entries,
        updated_entries: counts.updated_entries,
        not_modified,
        error: None,
    }
}

fn error_result(feed_id: i64, message: String) -> (r: crate::api::RefreshResult)
    ensures
        failed_report(r, feed_id, message@),
{
    crate::api::RefreshResult {
        feed_id,
        status: "error".to_owned(),
        new_entries: 0,
        updated_entries: 0,
        not_modified: false,
        error: Some(message),
    }
}

/// The message of a refresh that found no ids left for new entries.
pub open spec fn ids_exhausted_text() -> Seq<char> {
    "database error: no entry ids left"@
}

/// Reconcile what the fetch of a feed brought back, reading bodies with the
/// namespace-aware parser: a fetch or parse failure is recorded on the feed
/// (its fetch time, the last successful one, stays) and reported with its
/// message; a `304` is a success that reports no new
/// entries; a parsed body is stored as [`apply_fetch`] does and reported
/// with its counts. `None` when the feed does not exist.
pub fn reconcile_fetch(store: &mut Store, feed_id: i64, fetched: Result<FetchOutcome, String>, now: &str) -> (r:
    Option<crate::api::RefreshResult>)
    requires
        old(store).wf(),
    ensures
        final(store).wf(),
        !has_feed(old(store)@, feed_id) ==> r is None && final(store)@ == old(store)@,
        has_feed(old(store)@, feed_id) ==> match fetched {
            Err(msg) => {
                &&& final(store)@ == failed_keeping_time(old(store)@, feed_id, msg@)
                &&& r matches Some(res) && failed_report(res, feed_id, msg@)
            },
            Ok(FetchOutcome::NotModified) => {
                &&& final(store)@ == unchanged_upstream(old(store)@, feed_id, now@)
                &&& r matches Some(res) && ok_report(res, feed_id, 0, 0, true)
            },
            Ok(FetchOutcome::Fetched { body, etag, last_modified }) => match crate::parser::parse_outcome_of(body@) {
                Err(e) => {
                    &&& final(store)@ == failed_keeping_time(old(store)@, feed_id, crate::parser::parse_error_text(e))
                    &&& r matches Some(res) && failed_report(res, feed_id, crate::parser::parse_error_text(e))
                },
                Ok(o) => if old(store)@.next_entry_id + o.feed.entries.len() > i64::MAX {
                    &&& final(store)@ == old(store)@
                    &&& r matches Some(res) && failed_report(res, feed_id, ids_exhausted_text())
                } else {
                    let up = upsert_items(old(store)@, feed_id, fetched_items(o.feed.entries), now@);
                    &&& final(store)@ == succeeded(up.0, feed_id, o.feed.title, now@, opt_view(etag), opt_view(last_modified))
                    &&& r matches Some(res) && ok_report(res, feed_id, up.1, o.feed.entries.len() - up.1, false)
                },
            },
        },
{
    if !store.has_feed_id(feed_id) {
        return None;
    }
    match fetched {
        Err(msg) => {
            store.record_failure(feed_id, msg.as_str());
            Some(error_result(feed_id, msg))
        },
        Ok(FetchOutcome::NotModified) => {
            store.record_not_modified(feed_id, now);
            Some(ok_result(feed_id, ApplyCounts { new_entries: 0, updated_entries: 0 }, true))
        },
        Ok(FetchOutcome::Fetched { body, etag, last_modified }) => match crate::parser::parse_feed(body.as_slice()) {
            Err(e) => {
                let msg = e.message();
                store.record_failure(feed_id, msg.as_str());
                Some(error_result(feed_id, msg))
            },
            Ok(o) => match apply_fetch(store, feed_id, &o.feed, opt_str(&etag), opt_str(&last_modified), now) {
                Ok(c) => Some(ok_result(feed_id, c, false)),
                Err(_) => Some(error_result(feed_id, "database error: no entry ids left".to_owned())),
            },
        },
    }
}

/// Refresh a feed from what its fetch brought back, reading bodies as a
/// document tree: a fetch or parse failure is recorded on the feed (the
/// fetch time stays) and reported; a `304` is a success with no new entries;
/// a parsed body upserts its entries in order, then records the title (when
/// there is one) and the validators, and reports how many entries were new.
/// `None` when the feed does not exist or when an item's `pubDate` cannot be
/// read (its month slice would end inside a character); the store is then
/// unchanged.
pub fn tree_refresh(store: &mut Store, feed_id: i64, fetched: Result<FetchOutcome, String>, now: &str) -> (r: Option<RefreshResult>)
    requires
        old(store).wf(),
    ensures
        final(store).wf(),
        !has_feed(old(store)@, feed_id) ==> r is None && final(store)@ == old(store)@,
        has_feed(old(store)@, feed_id) ==> match fetched {
            Err(msg) => {
                &&& final(store)@ == failed_keeping_time(old(store)@, feed_id, msg@)
                &&& r matches Some(res) && res.feed_id == feed_id && res.status@ == "error"@ && res.new_entries == 0
                    && res.not_modified is None && res.error == Some(msg)
            },
            Ok(FetchOutcome::NotModified) => {
                &&& final(store)@ == unchanged_upstream(old(store)@, feed_id, now@)
                &&& r matches Some(res) && res.feed_id == feed_id && res.status@ == "ok"@ && res.new_entries == 0
                    && res.not_modified is None && res.error is None
            },
            Ok(FetchOutcome::Fetched { body, etag, last_modified }) => if crate::domfeed::feed_dates_panic(body@) {
                r is None && final(store)@ == old(store)@
            } else {
                match crate::domfeed::feed_of(body@) {
                    Err(e) => {
                        let m = crate::domfeed::parse_error_text(e);
                        &&& final(store)@ == failed_keeping_time(old(store)@, feed_id, m)
                        &&& r matches Some(res) && res.feed_id == feed_id && res.status@ == "error"@
                            && res.new_entries == 0 && res.not_modified is None && opt_view(res.error) == Some(m)
                    },
                    Ok(f) => if old(store)@.next_entry_id + f.entries.len() > i64::MAX {
                        &&& final(store)@ == failed_keeping_time(old(store)@, feed_id, ids_exhausted_text())
                        &&& r matches Some(res) && res.feed_id == feed_id && res.status@ == "error"@
                            && res.new_entries == 0 && res.not_modified is None && opt_view(res.error) == Some(
                            ids_exhausted_text(),
                        )
                    } else {
                        let up = upsert_items(old(store)@, feed_id, fetched_items(f.entries), now@);
                        &&& final(store)@ == succeeded(up.0, feed_id, f.title, now@, opt_view(etag), opt_view(last_modified))
                        &&& r matches Some(res) && res.feed_id == feed_id && res.status@ == "ok"@
                            && res.new_entries == up.1 && res.not_modified is None && res.error is None
                    },
                }
            },
        },
{
    if !store.has_feed_id(feed_id) {
        return None;
    }
    match fetched {
        Err(msg) => {
            store.record_failure(feed_id, msg.as_str());
            Some(RefreshResult::error(feed_id, msg))
        },
        Ok(FetchOutcome::NotModified) => {
            store.record_not_modified(feed_id, now);
            Some(RefreshResult::ok(feed_id, 0))
        },
        Ok(FetchOutcome::Fetched { body, etag, last_modified }) => match crate::domfeed::try_parse_feed(body.as_slice()) {
            None => None,
            Some(Err(e)) => {
                let msg = e.message();
                store.record_failure(feed_id, msg.as_str());
                Some(RefreshResult::error(feed_id, msg))
            },
            Some(Ok(parsed)) => {
                if store.next_entry_id_value() as i128 + parsed.entries.len() as i128 > i64::MAX as i128 {
                    let msg = "database error: no entry ids left".to_owned();
                    store.record_failure(feed_id, msg.as_str());
                    return Some(RefreshResult::error(feed_id, msg));
                }
                proof {
                    let ev = crate::model::parsed_entries_view(parsed.entries@);
                    assert(ev =~= parsed@.entries);
                    assert forall|k: int| 0 <= k < ev.len() implies ((#[trigger] ev[k]).published_at matches Some(i)
                        ==> i.valid()) by {
                        assert(ev[k] == parsed.entries@[k]@);
                        assert(crate::domfeed::date_ok(parsed.entries@[k].published_at));
                    }
                }
                let c = upsert_all(store, feed_id, &parsed.entries, now);
                let title: Option<&str> = match &parsed.title {
                    Some(t) => Some(t.as_str()),
                    None => None,
                };
                store.record_success(feed_id, title, now, opt_str(&etag), opt_str(&last_modified));
                Some(RefreshResult::ok(feed_id, c.new_entries))
            },
        },
    }
}

proof fn lemma_upsert_keeps_entry(v: StoreV, id: i64, item: ItemV, t: Seq<char>, f: i64, g: Seq<char>)
    requires
        has_entry(v, f, g),
    ensures
        has_entry(upsert_view(v, id, item, t).0, f, g),
{
    let i = choose|i: int| 0 <= i < v.entries.len() && v.entries[i].feed_id == f && v.entries[i].guid == g;
    let w = upsert_view(v, id, item, t).0;
    if has_entry(v, id, item.guid) {
        let p = entry_pos(v, id, item.guid);
        if i == p {
            assert(w.entries[i].feed_id == f && w.entries[i].guid == g);
        } else {
            assert(w.entries[i] == v.entries[i]);
        }
    } else if has_feed(v, id) && v.next_entry_id != i64::MAX {
        assert(w.entries[i] == v.entries[i]);
    }
}

proof fn lemma_items_keep_entry(v: StoreV, id: i64, items: Seq<ItemV>, t: Seq<char>, f: i64, g: Seq<char>)
    requires
        has_entry(v, f, g),
    ensures
        has_entry(upsert_items(v, id, items, t).0, f, g),
    decreases items.len(),
{
    if items.len() > 0 {
        lemma_items_keep_entry(v, id, items.drop_last(), t, f, g);
        lemma_upsert_keeps_entry(upsert_items(v, id, items.drop_last(), t).0, id, items.last(), t, f, g);
    }
}

proof fn lemma_items_stored(v: StoreV, id: i64, items: Seq<ItemV>, t: Seq<char>)
    requires
        has_feed(v, id),
        v.next_entry_id + items.len() <= i64::MAX,
    ensures
        forall|k: int| 0 <= k < items.len() ==> has_entry(upsert_items(v, id, items, t).0, id, #[trigger] items[k].guid),
    decreases items.len(),
{
    if items.len() > 0 {
        let pre = items.drop_last();
        lemma_items_stored(v, id, pre, t);
        lemma_upsert_items_ids(v, id, pre, t);
        lemma_upsert_items_shape(v, id, pre, t);
        let w = upsert_items(v, id, pre, t).0;
        let fi = choose|i: int| 0 <= i < v.feeds.len() && v.feeds[i].id == id;
        assert(w.feeds[fi].id == id);
        assert(has_feed(w, id));
        let last = items.last();
        let w2 = upsert_view(w, id, last, t).0;
        assert(w2 == upsert_items(v, id, items, t).0);
        if has_entry(w, id, last.guid) {
            lemma_upsert_keeps_entry(w, id, last, t, id, last.guid);
        } else {
            assert(w.next_entry_id < i64::MAX);
            let n = w.entries.len() as int;
            assert(w2.entries[n].feed_id == id && w2.entries[n].guid == last.guid);
        }
        assert forall|k: int| 0 <= k < items.len() implies has_entry(w2, id, #[trigger] items[k].guid) by {
            if k < items.len() - 1 {
                assert(items[k] == pre[k]);
                lemma_upsert_keeps_entry(w, id, last, t, id, pre[k].guid);
            }
        }
    }
}

proof fn lemma_known_items_insert_nothing(w: StoreV, id: i64, items: Seq<ItemV>, t: Seq<char>)
    requires
        forall|k: int| 0 <= k < items.len() ==> has_entry(w, id, #[trigger] items[k].guid),
    ensures
        upsert_items(w, id, items, t).1 == 0,
    decreases items.len(),
{
    if items.len() > 0 {
        let pre = items.drop_last();
        assert forall|k: int| 0 <= k < pre.len() implies has_entry(w, id, #[trigger] pre[k].guid) by {
            assert(pre[k] == items[k]);
        }
        lemma_known_items_insert_nothing(w, id, pre, t);
        assert(has_entry(w, id, items[items.len() - 1].guid));
        lemma_items_keep_entry(w, id, pre, t, id, items.last().guid);
    }
}

/// Every report a refresh gives has the documented shape: status `"ok"`
/// with no message, or status `"error"` with one.
pub proof fn law_reports_are_well_formed(r: crate::api::RefreshResult, id: i64, new: int, updated: int, nm: bool, msg: Seq<char>)
    ensures
        ok_report(r, id, new, updated, nm) ==> r.wf(),
        failed_report(r, id, msg) ==> r.wf(),
{
    assert("ok"@ != "error"@) by {
        reveal_strlit("ok");
        reveal_strlit("error");
        assert("ok"@.len() != "error"@.len());
    }
}

/// Fetching the same entries again inserts nothing: after one successful
/// fetch, every identity it carried is known, so a second fetch of the same
/// content only updates.
pub proof fn law_refetch_inserts_nothing(
    v: StoreV,
    id: i64,
    items: Seq<ItemV>,
    title: Option<Seq<char>>,
    etag: Option<Seq<char>>,
    last_modified: Option<Seq<char>>,
    t1: Seq<char>,
    t2: Seq<char>,
)
    requires
        has_feed(v, id),
        v.next_entry_id + items.len() <= i64::MAX,
    ensures
        ({
            let first = succeeded(upsert_items(v, id, items, t1).0, id, title, t1, etag, last_modified);
            upsert_items(first, id, items, t2).1 == 0
        }),
{
    lemma_items_stored(v, id, items, t1);
    let w = upsert_items(v, id, items, t1).0;
    let first = succeeded(w, id, title, t1, etag, last_modified);
    assert(first.entries == w.entries);
    assert forall|k: int| 0 <= k < items.len() implies has_entry(first, id, #[trigger] items[k].guid) by {
        assert(has_entry(w, id, items[k].guid));
        let i = choose|i: int|
            0 <= i < w.entries.len() && w.entries[i].feed_id == id && w.entries[i].guid == items[k].guid;
        assert(first.entries[i] == w.entries[i]);
    }
    lemma_known_items_insert_nothing(first, id, items, t2);
}

/// A failed fetch keeps the feed's title and every entry, records the
/// error, and touches no other feed.
pub proof fn law_failure_preserves(v: StoreV, id: i64, now: Seq<char>, msg: Seq<char>)
    ensures
        failed(v, id, now, msg).entries == v.entries,
        failed(v, id, now, msg).feeds.len() == v.feeds.len(),
        has_feed(v, id) ==> failed(v, id, now, msg).feeds[feed_pos(v, id)].title == v.feeds[feed_pos(v, id)].title,
        has_feed(v, id) ==> failed(v, id, now, msg).feeds[feed_pos(v, id)].last_error == Some(msg),
        forall|i: int|
            0 <= i < v.feeds.len() && v.feeds[i].id != id ==> #[trigger] failed(v, id, now, msg).feeds[i]
                == v.feeds[i],
{
}

/// A failure the daemon records keeps the feed's title, every entry and the
/// time of its last successful fetch, sets its error, and touches no other
/// feed.
pub proof fn law_failure_keeps_last_success(v: StoreV, id: i64, msg: Seq<char>)
    ensures
        failed_keeping_time(v, id, msg).entries == v.entries,
        failed_keeping_time(v, id, msg).feeds.len() == v.feeds.len(),
        has_feed(v, id) ==> {
            let f = failed_keeping_time(v, id, msg).feeds[feed_pos(v, id)];
            &&& f.title == v.feeds[feed_pos(v, id)].title
            &&& f.last_fetched_at == v.feeds[feed_pos(v, id)].last_fetched_at
            &&& f.last_error == Some(msg)
        },
        forall|i: int|
            0 <= i < v.feeds.len() && v.feeds[i].id != id ==> #[trigger] failed_keeping_time(v, id, msg).feeds[i]
                == v.feeds[i],
{
}

/// A `304 Not Modified` is a success: the error is cleared, and the
/// entries and validators stay as they were.
pub proof fn law_not_modified_keeps_entries(v: StoreV, id: i64, now: Seq<char>)
    ensures
        unchanged_upstream(v, id, now).entries == v.entries,
        has_feed(v, id) ==> unchanged_upstream(v, id, now).feeds[feed_pos(v, id)].last_error is None,
        has_feed(v, id) ==> unchanged_upstream(v, id, now).feeds[feed_pos(v, id)].etag == v.feeds[feed_pos(
            v,
            id,
        )].etag,
{
}

/// Any successful fetch clears the error; a document without a title does
/// not blank a known title, and one with a title replaces it.
pub proof fn law_success_title_and_error(
    v: StoreV,
    id: i64,
    title: Option<Seq<char>>,
    now: Seq<char>,
    etag: Option<Seq<char>>,
    last_modified: Option<Seq<char>>,
)
    ensures
        has_feed(v, id) ==> succeeded(v, id, title, now, etag, last_modified).feeds[feed_pos(v, id)].last_error
            is None,
        has_feed(v, id) && title is None ==> succeeded(v, id, title, now, etag, last_modified).feeds[feed_pos(
            v,
            id,
        )].title == v.feeds[feed_pos(v, id)].title,
        has_feed(v, id) && title is Some ==> succeeded(v, id, title, now, etag, last_modified).feeds[feed_pos(
            v,
            id,
        )].title == title,
        succeeded(v, id, title, now, etag, last_modified).entries == v.entries,
{
}

} // verus!
