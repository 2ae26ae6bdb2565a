//! Request routing and parameter validation of the REST API.
//!
//! The server itself (sockets, bodies, JSON) lives outside; what it decides
//! lives here: which handler a method and path select, how an entries query
//! is read from its parameters, and which errors with which status codes
//! come back for malformed input.
use vstd::prelude::*;
use crate::params::{query_pair_list, query_pairs, string_pairs_view};
use crate::storedate::{format_utc, parse_rfc3339, plain_rfc3339_of, utc_text};
use crate::strs::{
    eq_chars, find_char, find_char_exec, has_prefix, parse_i64, parse_i64_exec, push_str, split_on,
    split_on_exec, starts_with_exec, str_chars, string_of, subvec, trim, trim_vec, views,
};

verus! {

/// The default page size of an entries query.
pub const DEFAULT_LIMIT: i64 = 50;

/// The largest page size an entries query may ask for.
pub const MAX_LIMIT: i64 = 500;

/// The request methods the API distinguishes.
#[derive(Clone, Copy, Debug, PartialEq, Eq, Structural)]
pub enum HttpMethod {
    Get,
    Post,
    Delete,
    Other,
}

/// The handler a request selects; ids are passed on as the path gave them.
#[derive(Clone, Debug)]
pub enum Route {
    Health,
    AddFeed,
    ListFeeds,
    GetFeed(String),
    DeleteFeed(String),
    RefreshFeed(String),
    RefreshAll,
    Entries,
    NotFound,
}

pub enum RouteV {
    Health,
    AddFeed,
    ListFeeds,
    GetFeed(Seq<char>),
    DeleteFeed(Seq<char>),
    RefreshFeed(Seq<char>),
    RefreshAll,
    Entries,
    NotFound,
}

impl View for Route {
    type V = RouteV;

    open spec fn view(&self) -> RouteV {
        match self {
            Route::Health => RouteV::Health,
            Route::AddFeed => RouteV::AddFeed,
            Route::ListFeeds => RouteV::ListFeeds,
            Route::GetFeed(i) => RouteV::GetFeed(i@),
            Route::DeleteFeed(i) => RouteV::DeleteFeed(i@),
            Route::RefreshFeed(i) => RouteV::RefreshFeed(i@),
            Route::RefreshAll => RouteV::RefreshAll,
            Route::Entries => RouteV::Entries,
            Route::NotFound => RouteV::NotFound,
        }
    }
}

pub open spec fn w_api() -> Seq<char> {
    seq!['a', 'p', 'i']
}

pub open spec fn w_feeds() -> Seq<char> {
    seq!['f', 'e', 'e', 'd', 's']
}

pub open spec fn w_refresh() -> Seq<char> {
    seq!['r', 'e', 'f', 'r', 'e', 's', 'h']
}

/// The non-empty parts, in order.
pub open spec fn nonempty_parts(ps: Seq<Seq<char>>) -> Seq<Seq<char>>
    decreases ps.len(),
{
    if ps.len() == 0 {
        Seq::empty()
    } else {
        let r = nonempty_parts(ps.drop_last());
        if ps.last().len() > 0 {
            r.push(ps.last())
        } else {
            r
        }
    }
}

/// The segments of a path: its non-empty `/`-separated parts.
pub open spec fn path_segments(path: Seq<char>) -> Seq<Seq<char>> {
    nonempty_parts(split_on(path, '/'))
}

/// The handler a method and path segments select.
pub open spec fn route_of(m: HttpMethod, s: Seq<Seq<char>>) -> RouteV {
    if s.len() >= 2 && s[0] == w_api() {
        if s.len() == 2 && s[1] == seq!['h', 'e', 'a', 'l', 't', 'h'] && m == HttpMethod::Get {
            RouteV::Health
        } else if s.len() == 2 && s[1] == w_feeds() && m == HttpMethod::Post {
            RouteV::AddFeed
        } else if s.len() == 2 && s[1] == w_feeds() && m == HttpMethod::Get {
            RouteV::ListFeeds
        } else if s.len() == 3 && s[1] == w_feeds() && m == HttpMethod::Get {
            RouteV::GetFeed(s[2])
        } else if s.len() == 3 && s[1] == w_feeds() && m == HttpMethod::Delete {
            RouteV::DeleteFeed(s[2])
        } else if s.len() == 4 && s[1] == w_feeds() && s[3] == w_refresh() && m == HttpMethod::Post {
            RouteV::RefreshFeed(s[2])
        } else if s.len() == 2 && s[1] == w_refresh() && m == HttpMethod::Post {
            RouteV::RefreshAll
        } else if s.len() == 2 && s[1] == seq!['e', 'n', 't', 'r', 'i', 'e', 's'] && m == HttpMethod::Get {
            RouteV::Entries
        } else {
            RouteV::NotFound
        }
    } else {
        RouteV::NotFound
    }
}

fn path_segments_exec(path: &str) -> (r: Vec<Vec<char>>)
    ensures
        views(r@) == path_segments(path@),
{
    let v = str_chars(path);
    let parts = split_on_exec(v.as_slice(), '/');
    let ghost ps = views(parts@);
    let mut out: Vec<Vec<char>> = Vec::new();
    let mut i: usize = 0;
    assert(ps.take(0) =~= Seq::<Seq<char>>::empty());
    assert(views(out@) =~= Seq::<Seq<char>>::empty());
    while i < parts.len()
        invariant
            i <= parts@.len(),
            ps == views(parts@),
            ps.len() == parts@.len(),
            views(out@) == nonempty_parts(ps.take(i as int)),
        decreases parts@.len() - i,
    {
        assert(ps.take(i + 1).drop_last() =~= ps.take(i as int));
        assert(ps.take(i + 1).last() == ps[i as int]);
        assert(ps[i as int] == parts@[i as int]@);
        if parts[i].len() > 0 {
            let ghost before = views(out@);
            let p = subvec(parts[i].as_slice(), 0, parts[i].len());
            assert(p@ =~= parts@[i as int]@);
            out.push(p);
            assert(views(out@) =~= before.push(ps[i as int]));
        }
        i = i + 1;
    }
    assert(ps.take(i as int) =~= ps);
    out
}

fn is_word(v: &Vec<Vec<char>>, i: usize, w: &[char]) -> (r: bool)
    requires
        i < v@.len(),
    ensures
        r == (views(v@)[i as int] == w@),
{
    assert(views(v@)[i as int] == v@[i as int]@);
    eq_chars(v[i].as_slice(), w)
}

/// Select the handler of a request.
pub fn route(method: HttpMethod, path: &str) -> (r: Route)
    ensures
        r@ == route_of(method, path_segments(path@)),
{
    let s = path_segments_exec(path);
    let ghost sv = views(s@);
    assert(sv.len() == s@.len());
    let api: &[char] = &['a', 'p', 'i'];
    let health: &[char] = &['h', 'e', 'a', 'l', 't', 'h'];
    let feeds: &[char] = &['f', 'e', 'e', 'd', 's'];
    let refresh: &[char] = &['r', 'e', 'f', 'r', 'e', 's', 'h'];
    let entries: &[char] = &['e', 'n', 't', 'r', 'i', 'e', 's'];
    assert(api@ == w_api());
    assert(health@ == seq!['h', 'e', 'a', 'l', 't', 'h']);
    assert(feeds@ == w_feeds());
    assert(refresh@ == w_refresh());
    assert(entries@ == seq!['e', 'n', 't', 'r', 'i', 'e', 's']);
    let n = s.len();
    if n < 2 || !is_word(&s, 0, api) {
        return Route::NotFound;
    }
    let m = method;
    if n == 2 && is_word(&s, 1, health) && m == HttpMethod::Get {
        Route::Health
    } else if n == 2 && is_word(&s, 1, feeds) && m == HttpMethod::Post {
        Route::AddFeed
    } else if n == 2 && is_word(&s, 1, feeds) && m == HttpMethod::Get {
        Route::ListFeeds
    } else if n == 3 && is_word(&s, 1, feeds) && m == HttpMethod::Get {
        assert(sv[2] == s@[2]@);
        Route::GetFeed(string_of(s[2].as_slice()))
    } else if n == 3 && is_word(&s, 1, feeds) && m == HttpMethod::Delete {
        assert(sv[2] == s@[2]@);
        Route::DeleteFeed(string_of(s[2].as_slice()))
    } else if n == 4 && is_word(&s, 1, feeds) && is_word(&s, 3, refresh) && m == HttpMethod::Post {
        assert(sv[2] == s@[2]@);
        Route::RefreshFeed(string_of(s[2].as_slice()))
    } else if n == 2 && is_word(&s, 1, refresh) && m == HttpMethod::Post {
        Route::RefreshAll
    } else if n == 2 && is_word(&s, 1, entries) && m == HttpMethod::Get {
        Route::Entries
    } else {
        Route::NotFound
    }
}

/// A request target split at its first `?` into the path and the decoded
/// query pairs.
pub open spec fn split_url_of(raw: Seq<char>) -> (Seq<char>, Seq<(Seq<char>, Seq<char>)>) {
    match find_char(raw, '?') {
        Some(i) => (raw.take(i), query_pairs(vstd::utf8::encode_utf8(raw.skip(i + 1)))),
        None => (raw, Seq::empty()),
    }
}

/// Split a raw request target into its path and decoded query pairs.
pub fn split_url(raw: &str) -> (r: (String, Vec<(String, String)>))
    ensures
        (r.0@, string_pairs_view(r.1@)) == split_url_of(raw@),
{
    let v = str_chars(raw);
    match find_char_exec(v.as_slice(), '?') {
        Some(i) => {
            let n = v.len();
            assert(i < n);
            let path = subvec(v.as_slice(), 0, i);
            let qs = subvec(v.as_slice(), i + 1, n);
            assert(path@ =~= raw@.take(i as int));
            assert(qs@ =~= raw@.skip(i + 1));
            let q = string_of(qs.as_slice());
            (string_of(path.as_slice()), query_pair_list(q.as_str()))
        },
        None => {
            let empty: Vec<(String, String)> = Vec::new();
            assert(string_pairs_view(empty@) =~= Seq::<(Seq<char>, Seq<char>)>::empty());
            (string_of(v.as_slice()), empty)
        },
    }
}

/// A path id: an `i64`, else "feed not found".
pub open spec fn id_of(s: Seq<char>) -> Result<i64, (u16, Seq<char>)> {
    match parse_i64(s) {
        Some(i) => Ok(i),
        None => Err((404u16, "feed not found"@)),
    }
}

pub open spec fn err_view(e: (u16, String)) -> (u16, Seq<char>) {
    (e.0, e.1@)
}

/// Read a feed id from a path segment.
pub fn parse_id(s: &str) -> (r: Result<i64, (u16, String)>)
    ensures
        match r {
            Ok(i) => id_of(s@) == Ok::<i64, (u16, Seq<char>)>(i),
            Err(e) => id_of(s@) == Err::<i64, (u16, Seq<char>)>(err_view(e)),
        },
{
    let v = str_chars(s);
    match parse_i64_exec(v.as_slice()) {
        Some(i) => Ok(i),
        None => Err((404, "feed not found".to_owned())),
    }
}

/// An internal failure: status 500 with the failure's message.
pub fn internal(message: String) -> (r: (u16, String))
    ensures
        r.0 == 500,
        r.1 == message,
{
    (500, message)
}

/// A bound normalized to the fixed-width UTC storage form, so that text
/// comparison matches instant comparison.
pub open spec fn instant_bound_of(v: Seq<char>) -> Result<Seq<char>, (u16, Seq<char>)> {
    match plain_rfc3339_of(v) {
        Some(i) => Ok(utc_text(i)),
        None => Err((400u16, "invalid RFC 3339 instant: "@ + v)),
    }
}

/// Normalize an RFC 3339 bound to the storage form.
pub fn normalize_instant(v: &str) -> (r: Result<String, (u16, String)>)
    ensures
        match r {
            Ok(t) => instant_bound_of(v@) == Ok::<Seq<char>, (u16, Seq<char>)>(t@),
            Err(e) => instant_bound_of(v@) == Err::<Seq<char>, (u16, Seq<char>)>(err_view(e)),
        },
{
    match parse_rfc3339(v) {
        Some(i) => Ok(format_utc(i)),
        None => {
            let mut m = str_chars("invalid RFC 3339 instant: ");
            push_str(&mut m, v);
            Err((400, string_of(m.as_slice())))
        },
    }
}

/// Filters for an entries query, with bounds already in the storage form.
#[derive(Clone, Debug)]
pub struct EntryQuery {
    pub feed_id: Option<i64>,
    /// Inclusive lower bound.
    pub since: Option<String>,
    /// Exclusive upper bound.
    pub until: Option<String>,
    /// Case-insensitive substring of the title.
    pub search: Option<String>,
    pub limit: i64,
    pub offset: i64,
}

pub struct EntryQueryV {
    pub feed_id: Option<i64>,
    pub since: Option<Seq<char>>,
    pub until: Option<Seq<char>>,
    pub search: Option<Seq<char>>,
    pub limit: i64,
    pub offset: i64,
}

impl View for EntryQuery {
    type V = EntryQueryV;

    open spec fn view(&self) -> EntryQueryV {
        EntryQueryV {
            feed_id: self.feed_id,
            since: crate::text::opt_view(self.since),
            until: crate::text::opt_view(self.until),
            search: crate::text::opt_view(self.search),
            limit: self.limit,
            offset: self.offset,
        }
    }
}

pub open spec fn default_query() -> EntryQueryV {
    EntryQueryV { feed_id: None, since: None, until: None, search: None, limit: DEFAULT_LIMIT, offset: 0 }
}

pub open spec fn clamp_limit(n: i64) -> i64 {
    if n < 0 {
        0
    } else if n > MAX_LIMIT {
        MAX_LIMIT
    } else {
        n
    }
}

/// One query parameter applied to the filters read so far.
pub open spec fn apply_param(q: EntryQueryV, k: Seq<char>, v: Seq<char>) -> Result<EntryQueryV, (u16, Seq<char>)> {
    if k == seq!['f', 'e', 'e', 'd', '_', 'i', 'd'] {
        match parse_i64(v) {
            Some(i) => Ok(EntryQueryV { feed_id: Some(i), ..q }),
            None => Err((400u16, "invalid feed_id"@)),
        }
    } else if k == seq!['s', 'i', 'n', 'c', 'e'] {
        match instant_bound_of(v) {
            Ok(t) => Ok(EntryQueryV { since: Some(t), ..q }),
            Err(e) => Err(e),
        }
    } else if k == seq!['u', 'n', 't', 'i', 'l'] {
        match instant_bound_of(v) {
            Ok(t) => Ok(EntryQueryV { until: Some(t), ..q }),
            Err(e) => Err(e),
        }
    } else if k == seq!['q'] {
        Ok(EntryQueryV { search: Some(v), ..q })
    } else if k == seq!['l', 'i', 'm', 'i', 't'] {
        match parse_i64(v) {
            Some(n) => Ok(EntryQueryV { limit: clamp_limit(n), ..q }),
            None => Err((400u16, "invalid limit"@)),
        }
    } else if k == seq!['o', 'f', 'f', 's', 'e', 't'] {
        match parse_i64(v) {
            Some(n) => Ok(EntryQueryV { offset: if n < 0 { 0 } else { n }, ..q }),
            None => Err((400u16, "invalid offset"@)),
        }
    } else {
        Ok(q)
    }
}

/// The filters of an entries request: its parameters applied in order from
/// the defaults, the first malformed one answering the error.
pub open spec fn entry_query_of(pairs: Seq<(Seq<char>, Seq<char>)>) -> Result<EntryQueryV, (u16, Seq<char>)>
    decreases pairs.len(),
{
    if pairs.len() == 0 {
        Ok(default_query())
    } else {
        match entry_query_of(pairs.drop_last()) {
            Ok(q) => apply_param(q, pairs.last().0, pairs.last().1),
            Err(e) => Err(e),
        }
    }
}

fn parse_i64_str(v: &str) -> (r: Option<i64>)
    ensures
        r == parse_i64(v@),
{
    let c = str_chars(v);
    parse_i64_exec(c.as_slice())
}

fn apply_param_exec(q: &mut EntryQuery, k: &str, v: &str) -> (r: Result<(), (u16, String)>)
    ensures
        match r {
            Ok(_) => apply_param(old(q)@, k@, v@) == Ok::<EntryQueryV, (u16, Seq<char>)>(final(q)@),
            Err(e) => apply_param(old(q)@, k@, v@) == Err::<EntryQueryV, (u16, Seq<char>)>(err_view(e)),
        },
{
    let kc = str_chars(k);
    let key = kc.as_slice();
    let w_feed_id: &[char] = &['f', 'e', 'e', 'd', '_', 'i', 'd'];
    let w_since: &[char] = &['s', 'i', 'n', 'c', 'e'];
    let w_until: &[char] = &['u', 'n', 't', 'i', 'l'];
    let w_q: &[char] = &['q'];
    let w_limit: &[char] = &['l', 'i', 'm', 'i', 't'];
    let w_offset: &[char] = &['o', 'f', 'f', 's', 'e', 't'];
    assert(w_feed_id@ == seq!['f', 'e', 'e', 'd', '_', 'i', 'd']);
    assert(w_since@ == seq!['s', 'i', 'n', 'c', 'e']);
    assert(w_until@ == seq!['u', 'n', 't', 'i', 'l']);
    assert(w_q@ == seq!['q']);
    assert(w_limit@ == seq!['l', 'i', 'm', 'i', 't']);
    assert(w_offset@ == seq!['o', 'f', 'f', 's', 'e', 't']);
    if eq_chars(key, w_feed_id) {
        match parse_i64_str(v) {
            Some(i) => {
                q.feed_id = Some(i);
                Ok(())
            },
            None => Err((400, "invalid feed_id".to_owned())),
        }
    } else if eq_chars(key, w_since) {
        match normalize_instant(v) {
            Ok(t) => {
                q.since = Some(t);
                Ok(())
            },
            Err(e) => Err(e),
        }
    } else if eq_chars(key, w_until) {
        match normalize_instant(v) {
            Ok(t) => {
                q.until = Some(t);
                Ok(())
            },
            Err(e) => Err(e),
        }
    } else if eq_chars(key, w_q) {
        q.search = Some(v.to_owned());
        Ok(())
    } else if eq_chars(key, w_limit) {
        match parse_i64_str(v) {
            Some(n) => {
                q.limit = if n < 0 {
                    0
                } else if n > MAX_LIMIT {
                    MAX_LIMIT
                } else {
                    n
                };
                Ok(())
            },
            None => Err((400, "invalid limit".to_owned())),
        }
    } else if eq_chars(key, w_offset) {
        match parse_i64_str(v) {
            Some(n) => {
                q.offset = if n < 0 {
                    0
                } else {
                    n
                };
                Ok(())
            },
            None => Err((400, "invalid offset".to_owned())),
        }
    } else {
        Ok(())
    }
}

/// Read the filters of an entries request from its query pairs.
pub fn entry_query(pairs: &Vec<(String, String)>) -> (r: Result<EntryQuery, (u16, String)>)
    ensures
        match r {
            Ok(q) => entry_query_of(string_pairs_view(pairs@)) == Ok::<EntryQueryV, (u16, Seq<char>)>(q@),
            Err(e) => entry_query_of(string_pairs_view(pairs@)) == Err::<EntryQueryV, (u16, Seq<char>)>(err_view(e)),
        },
{
    let ghost pv = string_pairs_view(pairs@);
    let mut q = EntryQuery { feed_id: None, since: None, until: None, search: None, limit: DEFAULT_LIMIT, offset: 0 };
    let mut i: usize = 0;
    assert(pv.take(0) =~= Seq::<(Seq<char>, Seq<char>)>::empty());
    while i < pairs.len()
        invariant
            i <= pairs@.len(),
            pv == string_pairs_view(pairs@),
            pv.len() == pairs@.len(),
            entry_query_of(pv.take(i as int)) == Ok::<EntryQueryV, (u16, Seq<char>)>(q@),
        decreases pairs@.len() - i,
    {
        assert(pv.take(i + 1).drop_last() =~= pv.take(i as int));
        assert(pv.take(i + 1).last() == pv[i as int]);
        assert(pv[i as int] == (pairs@[i as int].0@, pairs@[i as int].1@));
        match apply_param_exec(&mut q, pairs[i].0.as_str(), pairs[i].1.as_str()) {
            Ok(()) => {},
            Err(e) => {
                proof {
                    lemma_query_error_sticks(pv, i as int + 1);
                }
                return Err(e);
            },
        }
        i = i + 1;
    }
    assert(pv.take(i as int) =~= pv);
    Ok(q)
}

/// Once a parameter is malformed, later ones do not change the answer.
proof fn lemma_query_error_sticks(pv: Seq<(Seq<char>, Seq<char>)>, n: int)
    requires
        0 <= n <= pv.len(),
        entry_query_of(pv.take(n)) is Err,
    ensures
        entry_query_of(pv) == entry_query_of(pv.take(n)),
    decreases pv.len() - n,
{
    if n < pv.len() {
        assert(pv.take(n + 1).drop_last() =~= pv.take(n));
        lemma_query_error_sticks(pv, n + 1);
    } else {
        assert(pv.take(n) =~= pv);
    }
}

/// What a feed URL submitted for registration must look like: trimmed, it
/// starts with `http://` or `https://`.
pub open spec fn feed_url_of(url: Seq<char>) -> Result<Seq<char>, (u16, Seq<char>)> {
    let t = trim(url);
    if has_prefix(t, "http://"@) || has_prefix(t, "https://"@) {
        Ok(t)
    } else {
        Err((422u16, "url must be http(s)"@))
    }
}

/// Check a submitted feed URL, returning it trimmed.
pub fn check_feed_url(url: &str) -> (r: Result<String, (u16, String)>)
    ensures
        match r {
            Ok(t) => feed_url_of(url@) == Ok::<Seq<char>, (u16, Seq<char>)>(t@),
            Err(e) => feed_url_of(url@) == Err::<Seq<char>, (u16, Seq<char>)>(err_view(e)),
        },
{
    let v = str_chars(url);
    let t = trim_vec(v.as_slice());
    let http = str_chars("http://");
    let https = str_chars("https://");
    if starts_with_exec(t.as_slice(), http.as_slice()) || starts_with_exec(t.as_slice(), https.as_slice()) {
        Ok(string_of(t.as_slice()))
    } else {
        Err((422, "url must be http(s)".to_owned()))
    }
}

} // verus!

verus! {

/// Every handler but "not found" lives under `/api`.
pub proof fn law_routes_under_api(m: HttpMethod, s: Seq<Seq<char>>)
    ensures
        !(route_of(m, s) is NotFound) ==> s.len() >= 2 && s[0] == w_api(),
{
}

/// Whatever the parameters, an accepted entries query asks for a page of
/// 0 to 500 entries at a non-negative offset.
pub proof fn law_query_bounds(pairs: Seq<(Seq<char>, Seq<char>)>)
    ensures
        entry_query_of(pairs) matches Ok(q) ==> 0 <= q.limit <= MAX_LIMIT && q.offset >= 0,
    decreases pairs.len(),
{
    if pairs.len() > 0 {
        law_query_bounds(pairs.drop_last());
    }
}

} // verus!
