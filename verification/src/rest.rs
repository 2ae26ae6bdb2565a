//! The REST API's error answers and request validation: every failure is a
//! status with a `{"error": ...}` body, a feed URL must be an absolute
//! http(s) URL with a host, and an entries query is read from its
//! parameters with each malformed one answered by `422`.
//!
//! Routing, bodies and JSON live outside; what a request is answered with is
//! decided here.
use vstd::prelude::*;
use crate::httpwire::{i64_text, int_text};
use crate::params::QueryMap;
use crate::router::{EntryQuery, EntryQueryV, DEFAULT_LIMIT, MAX_LIMIT};
use crate::storedate::{ceil_second, format_utc_ceil, parse_rfc3339, plain_rfc3339_of, utc_text};
use crate::strs::{eq_chars, parse_i64, parse_i64_exec, push_chars, push_str, str_chars, string_of};

verus! {

/// An error answer: its status and the message of its `{"error": ...}` body.
#[derive(Clone, Debug)]
pub struct ApiError {
    pub status: u16,
    pub message: String,
}

impl ApiError {
    /// An error with the given status and message.
    pub fn new(status: u16, message: String) -> (r: Self)
        ensures
            r.status == status,
            r.message == message,
    {
        ApiError { status, message }
    }

    /// `404 Not Found`.
    pub fn not_found(message: String) -> (r: Self)
        ensures
            r.status == 404,
            r.message == message,
    {
        ApiError::new(404, message)
    }

    /// `422 Unprocessable Entity`.
    pub fn unprocessable(message: String) -> (r: Self)
        ensures
            r.status == 422,
            r.message == message,
    {
        ApiError::new(422, message)
    }

    /// `500`, with the failure behind `internal error: `.
    pub fn internal(error: &str) -> (r: Self)
        ensures
            r.status == 500,
            r.message@ == "internal error: "@ + error@,
    {
        let mut m = str_chars("internal error: ");
        push_str(&mut m, error);
        ApiError::new(500, string_of(m.as_slice()))
    }
}

/// The answer to a path that names no endpoint.
pub fn no_such_endpoint() -> (r: ApiError)
    ensures
        r.status == 404,
        r.message@ == "no such endpoint"@,
{
    ApiError::not_found("no such endpoint".to_owned())
}

/// The answer to an id that names no feed.
pub fn no_such_feed(id: i64) -> (r: ApiError)
    ensures
        r.status == 404,
        r.message@ == "no feed with id "@ + int_text(id as int),
{
    let mut m = str_chars("no feed with id ");
    let d = i64_text(id);
    push_chars(&mut m, d.as_slice());
    ApiError::not_found(string_of(m.as_slice()))
}

/// The answer to registering a URL that is registered already.
pub fn already_registered(url: &str) -> (r: ApiError)
    ensures
        r.status == 409,
        r.message@ == "feed already registered: "@ + url@,
{
    let mut m = str_chars("feed already registered: ");
    push_str(&mut m, url);
    ApiError::new(409, string_of(m.as_slice()))
}

/// What `url::Url::parse` makes of a string: its scheme and its host, or
/// `None` where it is no absolute URL.
pub uninterp spec fn url_scheme_host(s: Seq<char>) -> Option<(Seq<char>, Option<Seq<char>>)>;

/// `url::Url::parse`, read back through `Url::scheme` and `Url::host_str`.
/// The contract names the result and claims nothing else of it.
#[verifier::external_body]
fn parse_url(s: &str) -> (r: Option<(String, Option<String>)>)
    ensures
        match r {
            Some(p) => url_scheme_host(s@) == Some((p.0@, crate::text::opt_view(p.1))),
            None => url_scheme_host(s@) is None,
        },
{
    match url::Url::parse(s) {
        Ok(u) => Some((u.scheme().to_string(), u.host_str().map(|h| h.to_string()))),
        Err(_) => None,
    }
}

/// Why a URL is refused as a feed, if it is.
pub open spec fn feed_url_refusal(url: Seq<char>) -> Option<Seq<char>> {
    match url_scheme_host(url) {
        None => Some("not a valid URL: "@ + url),
        Some(p) => if p.0 != seq!['h', 't', 't', 'p'] && p.0 != seq!['h', 't', 't', 'p', 's'] {
            Some("URL scheme must be http or https, not "@ + p.0)
        } else if p.1 is None {
            Some("URL has no host: "@ + url)
        } else {
            None
        },
    }
}

/// Only absolute http(s) URLs with a host are feeds that can be fetched.
pub fn validate_feed_url(url: &str) -> (r: Result<(), ApiError>)
    ensures
        match r {
            Ok(_) => feed_url_refusal(url@) is None,
            Err(e) => e.status == 422 && feed_url_refusal(url@) == Some(e.message@),
        },
{
    match parse_url(url) {
        None => {
            let mut m = str_chars("not a valid URL: ");
            push_str(&mut m, url);
            Err(ApiError::unprocessable(string_of(m.as_slice())))
        },
        Some((scheme, host)) => {
            let sc = str_chars(scheme.as_str());
            let w_http: &[char] = &['h', 't', 't', 'p'];
            let w_https: &[char] = &['h', 't', 't', 'p', 's'];
            assert(w_http@ == seq!['h', 't', 't', 'p']);
            assert(w_https@ == seq!['h', 't', 't', 'p', 's']);
            if !eq_chars(sc.as_slice(), w_http) && !eq_chars(sc.as_slice(), w_https) {
                let mut m = str_chars("URL scheme must be http or https, not ");
                push_chars(&mut m, sc.as_slice());
                Err(ApiError::unprocessable(string_of(m.as_slice())))
            } else if host.is_none() {
                let mut m = str_chars("URL has no host: ");
                push_str(&mut m, url);
                Err(ApiError::unprocessable(string_of(m.as_slice())))
            } else {
                Ok(())
            }
        },
    }
}

/// An integer parameter: absent, or a value that must parse as an `i64`.
pub open spec fn integer_param(m: Map<Seq<char>, Seq<char>>, name: Seq<char>) -> Result<Option<i64>, Seq<char>> {
    if m.contains_key(name) {
        match parse_i64(m[name]) {
            Some(i) => Ok(Some(i)),
            None => Err(name + " must be an integer"@),
        }
    } else {
        Ok(None)
    }
}

/// A time bound: absent, or an RFC 3339 timestamp in the storage form,
/// rounded up to the next whole second when it has a fractional part.
/// Stored instants are whole seconds, so rounding up keeps both comparisons
/// right: an entry at 12:00:00 is not at or after 12:00:00.5 (`since`
/// becomes 12:00:01 and leaves it out) and is before it (`until` becomes
/// 12:00:01 and keeps it).
pub open spec fn instant_param(m: Map<Seq<char>, Seq<char>>, name: Seq<char>) -> Result<Option<Seq<char>>, Seq<char>> {
    if m.contains_key(name) {
        match plain_rfc3339_of(m[name]) {
            Some(i) => Ok(Some(utc_text(ceil_second(i)))),
            None => Err(name + " must be an RFC 3339 timestamp"@),
        }
    } else {
        Ok(None)
    }
}

/// The search text: the `q` parameter unless it is empty.
pub open spec fn search_param(m: Map<Seq<char>, Seq<char>>) -> Option<Seq<char>> {
    if m.contains_key("q"@) && m["q"@].len() > 0 {
        Some(m["q"@])
    } else {
        None
    }
}

/// The entries query a parameter map asks for: `limit` (default 50, at most
/// 500, never negative), `offset` (default 0, never negative), `feed_id`,
/// `since`, `until` and `q`, checked in that order.
pub open spec fn entries_query_of(m: Map<Seq<char>, Seq<char>>) -> Result<EntryQueryV, Seq<char>> {
    match integer_param(m, "limit"@) {
        Err(e) => Err(e),
        Ok(l) => if l matches Some(x) && x < 0 {
            Err("limit must not be negative"@)
        } else {
            let limit = match l {
                Some(x) => if x > MAX_LIMIT {
                    MAX_LIMIT
                } else {
                    x
                },
                None => DEFAULT_LIMIT,
            };
            match integer_param(m, "offset"@) {
                Err(e) => Err(e),
                Ok(o) => if o matches Some(x) && x < 0 {
                    Err("offset must not be negative"@)
                } else {
                    let offset = match o {
                        Some(x) => x,
                        None => 0,
                    };
                    match integer_param(m, "feed_id"@) {
                        Err(e) => Err(e),
                        Ok(feed_id) => match instant_param(m, "since"@) {
                            Err(e) => Err(e),
                            Ok(since) => match instant_param(m, "until"@) {
                                Err(e) => Err(e),
                                Ok(until) => Ok(
                                    EntryQueryV { feed_id, since, until, search: search_param(m), limit, offset },
                                ),
                            },
                        },
                    }
                },
            }
        },
    }
}

fn integer(params: &QueryMap, name: &str) -> (r: Result<Option<i64>, ApiError>)
    requires
        params.wf(),
    ensures
        match r {
            Ok(v) => integer_param(params@, name@) == Ok::<Option<i64>, Seq<char>>(v),
            Err(e) => e.status == 422 && integer_param(params@, name@) == Err::<Option<i64>, Seq<char>>(e.message@),
        },
{
    match params.get(name) {
        None => Ok(None),
        Some(raw) => {
            let c = str_chars(raw.as_str());
            match parse_i64_exec(c.as_slice()) {
                Some(i) => Ok(Some(i)),
                None => {
                    let mut m = str_chars(name);
                    push_str(&mut m, " must be an integer");
                    Err(ApiError::unprocessable(string_of(m.as_slice())))
                },
            }
        },
    }
}

fn instant(params: &QueryMap, name: &str) -> (r: Result<Option<String>, ApiError>)
    requires
        params.wf(),
    ensures
        match r {
            Ok(v) => instant_param(params@, name@) == Ok::<Option<Seq<char>>, Seq<char>>(crate::text::opt_view(v)),
            Err(e) => e.status == 422 && instant_param(params@, name@) == Err::<Option<Seq<char>>, Seq<char>>(
                e.message@,
            ),
        },
{
    match params.get(name) {
        None => Ok(None),
        Some(raw) => match parse_rfc3339(raw.as_str()) {
            Some(i) => Ok(Some(format_utc_ceil(i))),
            None => {
                let mut m = str_chars(name);
                push_str(&mut m, " must be an RFC 3339 timestamp");
                Err(ApiError::unprocessable(string_of(m.as_slice())))
            },
        },
    }
}

/// Read an entries query from its parameters; a malformed one is answered
/// with `422` and the first complaint.
pub fn parse_entry_query(params: &QueryMap) -> (r: Result<EntryQuery, ApiError>)
    requires
        params.wf(),
    ensures
        match r {
            Ok(q) => entries_query_of(params@) == Ok::<EntryQueryV, Seq<char>>(q@),
            Err(e) => e.status == 422 && entries_query_of(params@) == Err::<EntryQueryV, Seq<char>>(e.message@),
        },
{
    let limit = match integer(params, "limit") {
        Err(e) => return Err(e),
        Ok(Some(l)) => {
            if l < 0 {
                return Err(ApiError::unprocessable("limit must not be negative".to_owned()));
            }
            if l > MAX_LIMIT {
                MAX_LIMIT
            } else {
                l
            }
        },
        Ok(None) => DEFAULT_LIMIT,
    };
    let offset = match integer(params, "offset") {
        Err(e) => return Err(e),
        Ok(Some(o)) => {
            if o < 0 {
                return Err(ApiError::unprocessable("offset must not be negative".to_owned()));
            }
            o
        },
        Ok(None) => 0,
    };
    let feed_id = match integer(params, "feed_id") {
        Err(e) => return Err(e),
        Ok(v) => v,
    };
    let since = match instant(params, "since") {
        Err(e) => return Err(e),
        Ok(v) => v,
    };
    let until = match instant(params, "until") {
        Err(e) => return Err(e),
        Ok(v) => v,
    };
    let search = match params.get("q") {
        Some(q) => if !q.as_str().is_empty() {
            Some(q.clone())
        } else {
            None
        },
        None => None,
    };
    Ok(EntryQuery { feed_id, since, until, search, limit, offset })
}

/// Whatever the parameters, an accepted entries query asks for a page of
/// 0 to 500 entries at a non-negative offset, and every refusal is a `422`
/// with a message.
pub proof fn law_entries_query_bounds(m: Map<Seq<char>, Seq<char>>)
    ensures
        entries_query_of(m) matches Ok(q) ==> 0 <= q.limit <= MAX_LIMIT && q.offset >= 0,
        entries_query_of(m) matches Err(msg) ==> msg.len() > 0,
{
    reveal_strlit("limit must not be negative");
    reveal_strlit("offset must not be negative");
    reveal_strlit(" must be an integer");
    reveal_strlit(" must be an RFC 3339 timestamp");
}

} // verus!
