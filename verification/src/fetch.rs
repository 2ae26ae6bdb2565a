//! What the fetcher makes of one conditional GET of a feed, read with the
//! one-pass parser. Every failure is recorded on the feed (its error and
//! fetch time) and reported; it never reaches another feed. The request
//! itself, with `If-None-Match` / `If-Modified-Since` from the stored
//! validators, is sent outside.
use vstd::prelude::*;
use crate::httpwire::{dec_digits, dec_text};
use crate::onepass::{lp_feed_of, parse_feed, ParseErrorV};
use crate::refresh::{failed, fetched_items, ids_exhausted_text, succeeded, unchanged_upstream, upsert_all};
use crate::store::{has_feed, str_opt, upsert_items, Store};
use crate::strs::{push_chars, push_str, str_chars, string_of};
use crate::text::opt_view;

verus! {

/// What a conditional GET brought back.
#[derive(Clone, Debug)]
pub enum FetchReply {
    /// `304 Not Modified`.
    NotModified,
    /// A body, with the validators the response carried.
    Body { body: Vec<u8>, etag: Option<String>, last_modified: Option<String> },
    /// An error status.
    Status(u16),
    /// The request failed before a response; the transport's message.
    Transport(String),
}

/// The outcome of refreshing a single feed.
#[derive(Clone, Debug)]
pub struct RefreshResult {
    /// `"ok"` or `"error"`.
    pub status: &'static str,
    pub new_entries: usize,
    pub not_modified: bool,
    pub error: Option<String>,
}

impl RefreshResult {
    fn ok(new_entries: usize, not_modified: bool) -> (r: Self)
        ensures
            ok_report(r, new_entries as int, not_modified),
    {
        RefreshResult { status: "ok", new_entries, not_modified, error: None }
    }

    fn err(message: String) -> (r: Self)
        ensures
            err_report(r, message@),
    {
        RefreshResult { status: "error", new_entries: 0, not_modified: false, error: Some(message) }
    }
}

pub open spec fn ok_report(r: RefreshResult, new: int, not_modified: bool) -> bool {
    &&& r.status@ == "ok"@
    &&& r.new_entries == new
    &&& r.not_modified == not_modified
    &&& r.error is None
}

pub open spec fn err_report(r: RefreshResult, msg: Seq<char>) -> bool {
    &&& r.status@ == "error"@
    &&& r.new_entries == 0
    &&& !r.not_modified
    &&& opt_view(r.error) == Some(msg)
}

/// The message of a one-pass parse error.
pub open spec fn parse_error_text(e: ParseErrorV) -> Seq<char> {
    match e {
        ParseErrorV::Xml(m) => "malformed XML: "@ + m,
        ParseErrorV::UnknownFormat => "unrecognized feed format"@,
    }
}

fn http_status_text(code: u16) -> (r: String)
    ensures
        r@ == "HTTP "@ + dec_digits(code as nat),
{
    let mut v = str_chars("HTTP ");
    let d = dec_text(code as u64);
    push_chars(&mut v, d.as_slice());
    string_of(v.as_slice())
}

fn prefixed(prefix: &str, s: &str) -> (r: String)
    ensures
        r@ == prefix@ + s@,
{
    let mut v = str_chars(prefix);
    push_str(&mut v, s);
    string_of(v.as_slice())
}

/// Reconcile one reply for a feed. A missing feed is `feed not found`; a
/// `304` (also as an error status) is a success with no new entries; an
/// error status is `HTTP CODE`; a transport failure is `fetch failed: ...`;
/// a body that does not parse is `parse error: ...`; a parsed body upserts
/// its entries in order, records the title (when there is one) and the
/// validators, and reports how many entries were new.
pub fn settle_fetch(store: &mut Store, feed_id: i64, reply: FetchReply, now: &str) -> (r: RefreshResult)
    requires
        old(store).wf(),
    ensures
        final(store).wf(),
        !has_feed(old(store)@, feed_id) ==> final(store)@ == old(store)@ && err_report(r, "feed not found"@),
        has_feed(old(store)@, feed_id) ==> match reply {
            FetchReply::NotModified => final(store)@ == unchanged_upstream(old(store)@, feed_id, now@) && ok_report(
                r,
                0,
                true,
            ),
            FetchReply::Status(code) => if code == 304 {
                final(store)@ == unchanged_upstream(old(store)@, feed_id, now@) && ok_report(r, 0, true)
            } else {
                let m = "HTTP "@ + dec_digits(code as nat);
                final(store)@ == failed(old(store)@, feed_id, now@, m) && err_report(r, m)
            },
            FetchReply::Transport(t) => {
                let m = "fetch failed: "@ + t@;
                final(store)@ == failed(old(store)@, feed_id, now@, m) && err_report(r, m)
            },
            FetchReply::Body { body, etag, last_modified } => match lp_feed_of(body@) {
                Err(e) => {
                    let m = "parse error: "@ + parse_error_text(e);
                    final(store)@ == failed(old(store)@, feed_id, now@, m) && err_report(r, m)
                },
                Ok(f) => if old(store)@.next_entry_id + f.entries.len() > i64::MAX {
                    final(store)@ == failed(old(store)@, feed_id, now@, ids_exhausted_text()) && err_report(
                        r,
                        ids_exhausted_text(),
                    )
                } else {
                    let up = upsert_items(old(store)@, feed_id, fetched_items(f.entries), now@);
                    &&& final(store)@ == succeeded(
                        up.0,
                        feed_id,
                        f.title,
                        now@,
                        opt_view(etag),
                        opt_view(last_modified),
                    )
                    &&& ok_report(r, up.1, false)
                },
            },
        },
{
    if !store.has_feed_id(feed_id) {
        return RefreshResult::err("feed not found".to_owned());
    }
    match reply {
        FetchReply::NotModified => {
            store.record_not_modified(feed_id, now);
            RefreshResult::ok(0, true)
        },
        FetchReply::Status(code) => {
            if code == 304 {
                store.record_not_modified(feed_id, now);
                RefreshResult::ok(0, true)
            } else {
                let m = http_status_text(code);
                store.record_error(feed_id, now, m.as_str());
                RefreshResult::err(m)
            }
        },
        FetchReply::Transport(t) => {
            let m = prefixed("fetch failed: ", t.as_str());
            store.record_error(feed_id, now, m.as_str());
            RefreshResult::err(m)
        },
        FetchReply::Body { body, etag, last_modified } => match parse_feed(body.as_slice()) {
            Err(e) => {
                let pe = e.message();
                let m = prefixed("parse error: ", pe.as_str());
                store.record_error(feed_id, now, m.as_str());
                RefreshResult::err(m)
            },
            Ok(parsed) => {
                if store.next_entry_id_value() as i128 + parsed.entries.len() as i128 > i64::MAX as i128 {
                    let m = "database error: no entry ids left".to_owned();
                    store.record_error(feed_id, now, m.as_str());
                    return RefreshResult::err(m);
                }
                let c = upsert_all(store, feed_id, &parsed.entries, now);
                let title: Option<&str> = match &parsed.title {
                    Some(t) => Some(t.as_str()),
                    None => None,
                };
                let etag_s: Option<&str> = match &etag {
                    Some(t) => Some(t.as_str()),
                    None => None,
                };
                let lm_s: Option<&str> = match &last_modified {
                    Some(t) => Some(t.as_str()),
                    None => None,
                };
                assert(str_opt(etag_s) == opt_view(etag));
                assert(str_opt(lm_s) == opt_view(last_modified));
                store.record_success(feed_id, title, now, etag_s, lm_s);
                RefreshResult::ok(c.new_entries as usize, false)
            },
        },
    }
}

} // verus!
