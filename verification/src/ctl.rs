//! The command-line client's side of the API: which URL each command asks,
//! which query parameters an entries command sends, and the text lines it
//! prints for the feeds, refresh results and entries that come back.
//!
//! The HTTP calls and the JSON decoding live outside; they hand these
//! functions the fields they read, a field that is missing (or of another
//! type) arriving as `None`.
use vstd::prelude::*;
use crate::fileserve::strip_trailing_slashes;
use crate::httpwire::{dec_digits, dec_text, i64_text, int_text};
use crate::strs::{eq_chars, push_chars, push_str, str_chars, string_of, subvec};
use crate::text::opt_view;

verus! {

/// The fields a feed line shows of a feed.
#[derive(Clone, Debug)]
pub struct FeedSummary {
    pub id: Option<i64>,
    pub url: Option<String>,
    pub title: Option<String>,
    pub entry_count: Option<i64>,
    pub last_error: Option<String>,
}

/// The fields a refresh line shows of a refresh result.
#[derive(Clone, Debug)]
pub struct RefreshSummary {
    pub status: Option<String>,
    pub new_entries: Option<i64>,
    pub feed_id: Option<i64>,
    pub not_modified: Option<bool>,
    pub error: Option<String>,
}

/// The fields an entry listing shows of an entry.
#[derive(Clone, Debug)]
pub struct EntrySummary {
    pub id: Option<i64>,
    pub title: Option<String>,
    pub published_at: Option<String>,
    pub link: Option<String>,
}

/// A text field, or its default when absent.
pub open spec fn or_text(o: Option<Seq<char>>, d: Seq<char>) -> Seq<char> {
    match o {
        Some(t) => t,
        None => d,
    }
}

/// A number field, or `0` when absent.
pub open spec fn or_zero(o: Option<i64>) -> int {
    match o {
        Some(n) => n as int,
        None => 0,
    }
}

/// `[id] title <url> (count entries)`, then ` ERROR: e` when the feed
/// carries an error.
pub open spec fn feed_line_text(f: FeedSummary) -> Seq<char> {
    let base = seq!['['] + int_text(or_zero(f.id)) + "] "@ + or_text(opt_view(f.title), "(untitled)"@) + " <"@
        + or_text(opt_view(f.url), Seq::empty()) + "> ("@ + int_text(or_zero(f.entry_count)) + " entries)"@;
    match opt_view(f.last_error) {
        Some(e) => base + " ERROR: "@ + e,
        None => base,
    }
}

fn or_zero_exec(o: Option<i64>) -> (r: i64)
    ensures
        r as int == or_zero(o),
{
    match o {
        Some(n) => n,
        None => 0,
    }
}

fn push_or(acc: &mut Vec<char>, o: &Option<String>, d: &str)
    ensures
        final(acc)@ == old(acc)@ + or_text(opt_view(*o), d@),
{
    match o {
        Some(t) => push_str(acc, t.as_str()),
        None => push_str(acc, d),
    }
}

/// The line printed for a feed.
pub fn feed_line(f: &FeedSummary) -> (r: String)
    ensures
        r@ == feed_line_text(*f),
{
    let mut v: Vec<char> = Vec::new();
    v.push('[');
    let id = i64_text(or_zero_exec(f.id));
    push_chars(&mut v, id.as_slice());
    push_str(&mut v, "] ");
    push_or(&mut v, &f.title, "(untitled)");
    push_str(&mut v, " <");
    push_or(&mut v, &f.url, "");
    proof {
        reveal_strlit("");
    }
    push_str(&mut v, "> (");
    let n = i64_text(or_zero_exec(f.entry_count));
    push_chars(&mut v, n.as_slice());
    push_str(&mut v, " entries)");
    match &f.last_error {
        Some(e) => {
            push_str(&mut v, " ERROR: ");
            push_str(&mut v, e.as_str());
        },
        None => {},
    }
    assert(v@ =~= feed_line_text(*f));
    string_of(v.as_slice())
}

/// The lines printed for a feed list: one per feed, or `(no feeds)` when
/// the list is empty or missing.
pub open spec fn feed_list_text(feeds: Option<Seq<FeedSummary>>) -> Seq<Seq<char>> {
    match feeds {
        Some(fs) => if fs.len() > 0 {
            seq![list_header()] + fs.map_values(|f: FeedSummary| feed_line_text(f))
        } else {
            seq!["(no feeds)"@]
        },
        None => seq!["(no feeds)"@],
    }
}

/// The header line of a feed list, naming the columns of a feed line.
pub open spec fn list_header() -> Seq<char> {
    "[ID] TITLE <URL> (ENTRIES) ERROR"@
}

/// The lines printed for a feed list.
pub fn feed_list_lines(feeds: Option<&Vec<FeedSummary>>) -> (r: Vec<String>)
    ensures
        r@.map_values(|s: String| s@) == feed_list_text(
            match feeds {
                Some(v) => Some(v@),
                None => None,
            },
        ),
{
    let mut out: Vec<String> = Vec::new();
    match feeds {
        Some(fs) => if fs.len() > 0 {
            out.push("[ID] TITLE <URL> (ENTRIES) ERROR".to_owned());
            let mut k: usize = 0;
            while k < fs.len()
                invariant
                    k <= fs@.len(),
                    out@.len() == k + 1,
                    out@[0]@ == list_header(),
                    forall|j: int| 0 <= j < k ==> (#[trigger] out@[j + 1])@ == feed_line_text(fs@[j]),
                decreases fs@.len() - k,
            {
                out.push(feed_line(&fs[k]));
                k = k + 1;
            }
            let ghost lhs = out@.map_values(|s: String| s@);
            let ghost rhs = seq![list_header()] + fs@.map_values(|f: FeedSummary| feed_line_text(f));
            assert forall|j: int| 0 <= j < lhs.len() implies lhs[j] == rhs[j] by {
                if j > 0 {
                    assert(out@[(j - 1) + 1]@ == feed_line_text(fs@[j - 1]));
                }
            }
            assert(lhs =~= rhs);
            return out;
        },
        None => {},
    }
    out.push("(no feeds)".to_owned());
    assert(out@.map_values(|s: String| s@) =~= seq!["(no feeds)"@]);
    out
}

/// The line printed for a refresh result: `feed N` (or just `feed`), then
/// `K new entries`, `not modified` or `error: E`.
pub open spec fn refresh_line_text(r: RefreshSummary) -> Seq<char> {
    let prefix = match r.feed_id {
        Some(id) => "feed "@ + int_text(id as int),
        None => "feed"@,
    };
    if or_text(opt_view(r.status), "?"@) == seq!['o', 'k'] {
        if r.not_modified == Some(true) {
            prefix + ": not modified"@
        } else {
            prefix + ": "@ + int_text(or_zero(r.new_entries)) + " new entries"@
        }
    } else {
        prefix + ": error: "@ + or_text(opt_view(r.error), "unknown error"@)
    }
}

/// The line printed for a refresh result.
pub fn refresh_line(r: &RefreshSummary) -> (s: String)
    ensures
        s@ == refresh_line_text(*r),
{
    let mut v: Vec<char> = match r.feed_id {
        Some(id) => {
            let mut p = str_chars("feed ");
            let d = i64_text(id);
            push_chars(&mut p, d.as_slice());
            p
        },
        None => str_chars("feed"),
    };
    let ghost prefix = v@;
    let mut st: Vec<char> = Vec::new();
    push_or(&mut st, &r.status, "?");
    let ok: &[char] = &['o', 'k'];
    assert(ok@ == seq!['o', 'k']);
    if eq_chars(st.as_slice(), ok) {
        if r.not_modified == Some(true) {
            push_str(&mut v, ": not modified");
        } else {
            push_str(&mut v, ": ");
            let n = i64_text(or_zero_exec(r.new_entries));
            push_chars(&mut v, n.as_slice());
            push_str(&mut v, " new entries");
        }
    } else {
        push_str(&mut v, ": error: ");
        push_or(&mut v, &r.error, "unknown error");
    }
    assert(v@ =~= refresh_line_text(*r));
    string_of(v.as_slice())
}

/// The lines printed for one entry: `[id] published  title`, then the link
/// indented when there is a non-empty one.
pub open spec fn entry_text(e: EntrySummary) -> Seq<Seq<char>> {
    let head = seq!['['] + int_text(or_zero(e.id)) + "] "@ + or_text(opt_view(e.published_at), "(no date)"@)
        + "  "@ + or_text(opt_view(e.title), "(untitled)"@);
    let link = or_text(opt_view(e.link), Seq::empty());
    if link.len() > 0 {
        seq![head, "      "@ + link]
    } else {
        seq![head]
    }
}

/// The lines of the entries after the first `n`.
pub open spec fn entries_text(items: Seq<EntrySummary>) -> Seq<Seq<char>>
    decreases items.len(),
{
    if items.len() == 0 {
        Seq::empty()
    } else {
        entries_text(items.drop_last()) + entry_text(items.last())
    }
}

/// The lines printed for an entries page: `Showing N of T`, then each
/// entry.
pub open spec fn entry_listing_text(total: Option<i64>, items: Seq<EntrySummary>) -> Seq<Seq<char>> {
    seq!["Showing "@ + dec_digits(items.len()) + " of "@ + int_text(or_zero(total))] + entries_text(items)
}

fn entry_lines_into(out: &mut Vec<String>, e: &EntrySummary)
    ensures
        final(out)@.map_values(|s: String| s@) == old(out)@.map_values(|s: String| s@) + entry_text(*e),
{
    let ghost before = out@;
    let mut v: Vec<char> = Vec::new();
    v.push('[');
    let id = i64_text(or_zero_exec(e.id));
    push_chars(&mut v, id.as_slice());
    push_str(&mut v, "] ");
    push_or(&mut v, &e.published_at, "(no date)");
    push_str(&mut v, "  ");
    push_or(&mut v, &e.title, "(untitled)");
    let head = string_of(v.as_slice());
    out.push(head);
    let mut l: Vec<char> = Vec::new();
    push_or(&mut l, &e.link, "");
    proof {
        reveal_strlit("");
    }
    assert(l@ == or_text(opt_view(e.link), Seq::empty()));
    if l.len() > 0 {
        let mut w = str_chars("      ");
        push_chars(&mut w, l.as_slice());
        out.push(string_of(w.as_slice()));
        assert(out@.map_values(|s: String| s@) =~= before.map_values(|s: String| s@) + entry_text(*e));
    } else {
        assert(out@.map_values(|s: String| s@) =~= before.map_values(|s: String| s@) + entry_text(*e));
    }
}

/// The lines printed for an entries page.
pub fn entry_listing(total: Option<i64>, items: &Vec<EntrySummary>) -> (r: Vec<String>)
    ensures
        r@.map_values(|s: String| s@) == entry_listing_text(total, items@),
{
    let mut out: Vec<String> = Vec::new();
    let mut v = str_chars("Showing ");
    let n = dec_text(items.len() as u64);
    push_chars(&mut v, n.as_slice());
    push_str(&mut v, " of ");
    let t = i64_text(or_zero_exec(total));
    push_chars(&mut v, t.as_slice());
    out.push(string_of(v.as_slice()));
    let ghost first = v@;
    assert(out@.map_values(|s: String| s@) =~= seq![first]);
    let mut k: usize = 0;
    while k < items.len()
        invariant
            k <= items@.len(),
            first == "Showing "@ + dec_digits(items@.len()) + " of "@ + int_text(or_zero(total)),
            out@.map_values(|s: String| s@) == seq![first] + entries_text(items@.take(k as int)),
        decreases items@.len() - k,
    {
        assert(items@.take(k + 1).drop_last() =~= items@.take(k as int));
        assert(items@.take(k + 1).last() == items@[k as int]);
        entry_lines_into(&mut out, &items[k]);
        assert(seq![first] + entries_text(items@.take(k as int)) + entry_text(items@[k as int]) =~= seq![first]
            + entries_text(items@.take(k + 1)));
        k = k + 1;
    }
    assert(items@.take(k as int) =~= items@);
    out
}

/// The query parameters an entries command sends, in this order: `feed_id`,
/// `since`, `until`, `q`, `limit`, `offset`, each only when given.
pub open spec fn entries_params_of(
    feed: Option<i64>,
    since: Option<Seq<char>>,
    until: Option<Seq<char>>,
    search: Option<Seq<char>>,
    limit: Option<i64>,
    offset: Option<i64>,
) -> Seq<(Seq<char>, Seq<char>)> {
    (match feed {
        Some(f) => seq![("feed_id"@, int_text(f as int))],
        None => Seq::empty(),
    }) + (match since {
        Some(s) => seq![("since"@, s)],
        None => Seq::empty(),
    }) + (match until {
        Some(u) => seq![("until"@, u)],
        None => Seq::empty(),
    }) + (match search {
        Some(q) => seq![("q"@, q)],
        None => Seq::empty(),
    }) + (match limit {
        Some(l) => seq![("limit"@, int_text(l as int))],
        None => Seq::empty(),
    }) + (match offset {
        Some(o) => seq![("offset"@, int_text(o as int))],
        None => Seq::empty(),
    })
}

fn push_param(out: &mut Vec<(String, String)>, key: &str, value: String)
    ensures
        final(out)@.map_values(|p: (String, String)| (p.0@, p.1@)) == old(out)@.map_values(
            |p: (String, String)| (p.0@, p.1@),
        ).push((key@, value@)),
{
    let ghost before = out@;
    out.push((key.to_owned(), value));
    assert(out@.map_values(|p: (String, String)| (p.0@, p.1@)) =~= before.map_values(
        |p: (String, String)| (p.0@, p.1@),
    ).push((key@, value@)));
}

fn opt_text(o: &Option<String>) -> (r: Option<String>)
    ensures
        opt_view(r) == opt_view(*o),
{
    match o {
        Some(s) => Some(s.clone()),
        None => None,
    }
}

/// The query parameters of an entries command.
pub fn entries_params(
    feed: Option<i64>,
    since: &Option<String>,
    until: &Option<String>,
    search: &Option<String>,
    limit: Option<i64>,
    offset: Option<i64>,
) -> (r: Vec<(String, String)>)
    ensures
        r@.map_values(|p: (String, String)| (p.0@, p.1@)) == entries_params_of(
            feed,
            opt_view(*since),
            opt_view(*until),
            opt_view(*search),
            limit,
            offset,
        ),
{
    let mut out: Vec<(String, String)> = Vec::new();
    assert(out@.map_values(|p: (String, String)| (p.0@, p.1@)) =~= Seq::<(Seq<char>, Seq<char>)>::empty());
    if let Some(f) = feed {
        let d = i64_text(f);
        push_param(&mut out, "feed_id", string_of(d.as_slice()));
    }
    match opt_text(since) {
        Some(s) => push_param(&mut out, "since", s),
        None => {},
    }
    match opt_text(until) {
        Some(u) => push_param(&mut out, "until", u),
        None => {},
    }
    match opt_text(search) {
        Some(q) => push_param(&mut out, "q", q),
        None => {},
    }
    if let Some(l) = limit {
        let d = i64_text(l);
        push_param(&mut out, "limit", string_of(d.as_slice()));
    }
    if let Some(o) = offset {
        let d = i64_text(o);
        push_param(&mut out, "offset", string_of(d.as_slice()));
    }
    assert(out@.map_values(|p: (String, String)| (p.0@, p.1@)) =~= entries_params_of(
        feed,
        opt_view(*since),
        opt_view(*until),
        opt_view(*search),
        limit,
        offset,
    ));
    out
}

/// The server's base URL without trailing slashes, then the path.
pub fn api_url(base: &str, path: &str) -> (r: String)
    ensures
        r@ == strip_trailing_slashes(base@) + path@,
{
    let b = str_chars(base);
    let mut end: usize = b.len();
    assert(b@.take(b@.len() as int) =~= b@);
    while end > 0 && b[end - 1] == '/'
        invariant
            end <= b@.len(),
            strip_trailing_slashes(b@) == strip_trailing_slashes(b@.take(end as int)),
        decreases end,
    {
        assert(b@.take(end as int).drop_last() =~= b@.take(end - 1));
        end = end - 1;
    }
    let mut v = subvec(b.as_slice(), 0, end);
    assert(v@ == b@.take(end as int));
    push_str(&mut v, path);
    string_of(v.as_slice())
}

/// The path of one feed: `/api/feeds/ID`.
pub fn feed_path(id: i64) -> (r: String)
    ensures
        r@ == "/api/feeds/"@ + int_text(id as int),
{
    let mut v = str_chars("/api/feeds/");
    let d = i64_text(id);
    push_chars(&mut v, d.as_slice());
    string_of(v.as_slice())
}

/// The path a refresh command posts to: one feed's, or every feed's.
pub fn refresh_path(id: Option<i64>) -> (r: String)
    ensures
        r@ == match id {
            Some(i) => "/api/feeds/"@ + int_text(i as int) + "/refresh"@,
            None => "/api/refresh"@,
        },
{
    match id {
        Some(i) => {
            let mut v = str_chars("/api/feeds/");
            let d = i64_text(i);
            push_chars(&mut v, d.as_slice());
            push_str(&mut v, "/refresh");
            string_of(v.as_slice())
        },
        None => "/api/refresh".to_owned(),
    }
}

/// The line printed after adding a feed: `Added feed N <URL>`.
pub fn added_line(f: &FeedSummary) -> (r: String)
    ensures
        r@ == "Added feed "@ + int_text(or_zero(f.id)) + " <"@ + or_text(opt_view(f.url), Seq::empty()) + seq!['>'],
{
    let mut v = str_chars("Added feed ");
    let d = i64_text(or_zero_exec(f.id));
    push_chars(&mut v, d.as_slice());
    push_str(&mut v, " <");
    push_or(&mut v, &f.url, "");
    proof {
        reveal_strlit("");
    }
    v.push('>');
    assert(v@ =~= "Added feed "@ + int_text(or_zero(f.id)) + " <"@ + or_text(opt_view(f.url), Seq::empty())
        + seq!['>']);
    string_of(v.as_slice())
}

/// The line printed after removing a feed.
pub fn removed_line(id: i64) -> (r: String)
    ensures
        r@ == "Removed feed "@ + int_text(id as int),
{
    let mut v = str_chars("Removed feed ");
    let d = i64_text(id);
    push_chars(&mut v, d.as_slice());
    string_of(v.as_slice())
}

/// The pair `(k, v)` is among the parameters.
pub open spec fn has_param(r: Seq<(Seq<char>, Seq<char>)>, k: Seq<char>, v: Seq<char>) -> bool {
    exists|i: int| 0 <= i < r.len() && r[i] == (k, v)
}

/// Every parameter keyed `k` carries the option's value, so none is sent
/// for an option that was not given.
pub open spec fn keyed_by(r: Seq<(Seq<char>, Seq<char>)>, k: Seq<char>, o: Option<Seq<char>>) -> bool {
    forall|i: int| 0 <= i < r.len() && #[trigger] r[i].0 == k ==> o == Some(r[i].1)
}

pub open spec fn num_opt(o: Option<i64>) -> Option<Seq<char>> {
    match o {
        Some(n) => Some(int_text(n as int)),
        None => None,
    }
}

/// Each option of the entries command is sent under its own key: a given
/// option's value appears under that key, and the key appears only with
/// the value of that option (`feed_id`, `since`, `until`, `q`, `limit`,
/// `offset`).
pub proof fn law_entries_params_keyed_by_option(
    feed: Option<i64>,
    since: Option<Seq<char>>,
    until: Option<Seq<char>>,
    search: Option<Seq<char>>,
    limit: Option<i64>,
    offset: Option<i64>,
)
    ensures
        ({
            let r = entries_params_of(feed, since, until, search, limit, offset);
            let k_feed = seq!['f', 'e', 'e', 'd', '_', 'i', 'd'];
            let k_since = seq!['s', 'i', 'n', 'c', 'e'];
            let k_until = seq!['u', 'n', 't', 'i', 'l'];
            let k_q = seq!['q'];
            let k_limit = seq!['l', 'i', 'm', 'i', 't'];
            let k_offset = seq!['o', 'f', 'f', 's', 'e', 't'];
            &&& (num_opt(feed) matches Some(v) ==> has_param(r, k_feed, v))
            &&& (since matches Some(v) ==> has_param(r, k_since, v))
            &&& (until matches Some(v) ==> has_param(r, k_until, v))
            &&& (search matches Some(v) ==> has_param(r, k_q, v))
            &&& (num_opt(limit) matches Some(v) ==> has_param(r, k_limit, v))
            &&& (num_opt(offset) matches Some(v) ==> has_param(r, k_offset, v))
            &&& keyed_by(r, k_feed, num_opt(feed))
            &&& keyed_by(r, k_since, since)
            &&& keyed_by(r, k_until, until)
            &&& keyed_by(r, k_q, search)
            &&& keyed_by(r, k_limit, num_opt(limit))
            &&& keyed_by(r, k_offset, num_opt(offset))
            &&& r.len() == (if feed is Some { 1int } else { 0 }) + (if since is Some { 1int } else { 0 }) + (if until is Some {
                1int
            } else {
                0
            }) + (if search is Some { 1int } else { 0 }) + (if limit is Some { 1int } else { 0 }) + (if offset is Some {
                1int
            } else {
                0
            })
        }),
{
    reveal_strlit("feed_id");
    reveal_strlit("since");
    reveal_strlit("until");
    reveal_strlit("q");
    reveal_strlit("limit");
    reveal_strlit("offset");
    let pa = match feed {
        Some(f) => seq![("feed_id"@, int_text(f as int))],
        None => Seq::<(Seq<char>, Seq<char>)>::empty(),
    };
    let pb = match since {
        Some(x) => seq![("since"@, x)],
        None => Seq::<(Seq<char>, Seq<char>)>::empty(),
    };
    let pc = match until {
        Some(x) => seq![("until"@, x)],
        None => Seq::<(Seq<char>, Seq<char>)>::empty(),
    };
    let pd = match search {
        Some(x) => seq![("q"@, x)],
        None => Seq::<(Seq<char>, Seq<char>)>::empty(),
    };
    let pe = match limit {
        Some(l) => seq![("limit"@, int_text(l as int))],
        None => Seq::<(Seq<char>, Seq<char>)>::empty(),
    };
    let pf = match offset {
        Some(o) => seq![("offset"@, int_text(o as int))],
        None => Seq::<(Seq<char>, Seq<char>)>::empty(),
    };
    let r = entries_params_of(feed, since, until, search, limit, offset);
    assert(r == pa + pb + pc + pd + pe + pf);
    let nb = pa.len() as int;
    let nc = nb + pb.len();
    let nd = nc + pc.len();
    let ne = nd + pd.len();
    let nf = ne + pe.len();
    assert(r.len() == nf + pf.len());
    assert forall|i: int| 0 <= i < r.len() implies {
        ||| (i < nb && r[i] == pa[i])
        ||| (nb <= i < nc && r[i] == pb[i - nb])
        ||| (nc <= i < nd && r[i] == pc[i - nc])
        ||| (nd <= i < ne && r[i] == pd[i - nd])
        ||| (ne <= i < nf && r[i] == pe[i - ne])
        ||| (nf <= i && r[i] == pf[i - nf])
    } by {
        if i < nb {
        } else if i < nc {
        } else if i < nd {
        } else if i < ne {
        } else if i < nf {
        } else {
        }
    }
    let k_feed = seq!['f', 'e', 'e', 'd', '_', 'i', 'd'];
    let k_since = seq!['s', 'i', 'n', 'c', 'e'];
    let k_until = seq!['u', 'n', 't', 'i', 'l'];
    let k_q = seq!['q'];
    let k_limit = seq!['l', 'i', 'm', 'i', 't'];
    let k_offset = seq!['o', 'f', 'f', 's', 'e', 't'];
    assert("feed_id"@ =~= k_feed);
    assert("since"@ =~= k_since);
    assert("until"@ =~= k_until);
    assert("q"@ =~= k_q);
    assert("limit"@ =~= k_limit);
    assert("offset"@ =~= k_offset);
    // The keys start with different letters, so the first letter of a
    // parameter's key tells which option it came from.
    assert forall|i: int| 0 <= i < r.len() implies {
        &&& (r[i].0[0] == 'f' ==> r[i].0 == k_feed && num_opt(feed) == Some(r[i].1))
        &&& (r[i].0[0] == 's' ==> r[i].0 == k_since && since == Some(r[i].1))
        &&& (r[i].0[0] == 'u' ==> r[i].0 == k_until && until == Some(r[i].1))
        &&& (r[i].0[0] == 'q' ==> r[i].0 == k_q && search == Some(r[i].1))
        &&& (r[i].0[0] == 'l' ==> r[i].0 == k_limit && num_opt(limit) == Some(r[i].1))
        &&& (r[i].0[0] == 'o' ==> r[i].0 == k_offset && num_opt(offset) == Some(r[i].1))
    } by {
        if i < nb {
        } else if i < nc {
        } else if i < nd {
        } else if i < ne {
        } else if i < nf {
        } else {
        }
    }
    assert forall|i: int| 0 <= i < r.len() && #[trigger] r[i].0 == k_feed implies num_opt(feed) == Some(r[i].1) by {
        assert(r[i].0[0] == 'f');
    }
    assert forall|i: int| 0 <= i < r.len() && #[trigger] r[i].0 == k_since implies since == Some(r[i].1) by {
        assert(r[i].0[0] == 's');
    }
    assert forall|i: int| 0 <= i < r.len() && #[trigger] r[i].0 == k_until implies until == Some(r[i].1) by {
        assert(r[i].0[0] == 'u');
    }
    assert forall|i: int| 0 <= i < r.len() && #[trigger] r[i].0 == k_q implies search == Some(r[i].1) by {
        assert(r[i].0[0] == 'q');
    }
    assert forall|i: int| 0 <= i < r.len() && #[trigger] r[i].0 == k_limit implies num_opt(limit) == Some(r[i].1) by {
        assert(r[i].0[0] == 'l');
    }
    assert forall|i: int| 0 <= i < r.len() && #[trigger] r[i].0 == k_offset implies num_opt(offset) == Some(r[i].1) by {
        assert(r[i].0[0] == 'o');
    }
    if feed is Some {
        assert(r[0] == pa[0]);
    }
    if since is Some {
        assert(r[nb] == pb[0]);
    }
    if until is Some {
        assert(r[nc] == pc[0]);
    }
    if search is Some {
        assert(r[nd] == pd[0]);
    }
    if limit is Some {
        assert(r[ne] == pe[0]);
    }
    if offset is Some {
        assert(r[nf] == pf[0]);
    }
}

} // verus!
