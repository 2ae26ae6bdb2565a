//! The rules of the fixture file server: content-derived ETags, content
//! types by extension, request paths confined to the served directory, and
//! the conditional-GET decision.
use vstd::prelude::*;
use crate::instant::Instant;
use crate::strs::{eq_chars, split_on, split_on_exec, str_chars, string_of, trim, trim_vec, views};

verus! {

pub const FNV_OFFSET: u64 = 0xcbf29ce484222325;

pub const FNV_PRIME: u64 = 0x100000001b3;

/// FNV-1a 64-bit of a byte string.
pub open spec fn fnv1a_of(b: Seq<u8>) -> u64
    decreases b.len(),
{
    if b.len() == 0 {
        FNV_OFFSET
    } else {
        (fnv1a_of(b.drop_last()) ^ (b.last() as u64)).wrapping_mul(FNV_PRIME)
    }
}

/// FNV-1a 64-bit hash, used for content-derived ETags.
pub fn fnv1a(bytes: &[u8]) -> (r: u64)
    ensures
        r == fnv1a_of(bytes@),
{
    let mut hash: u64 = FNV_OFFSET;
    let mut k: usize = 0;
    assert(bytes@.take(0) =~= Seq::<u8>::empty());
    while k < bytes.len()
        invariant
            k <= bytes@.len(),
            hash == fnv1a_of(bytes@.take(k as int)),
        decreases bytes@.len() - k,
    {
        assert(bytes@.take(k + 1).drop_last() =~= bytes@.take(k as int));
        hash = (hash ^ (bytes[k] as u64)).wrapping_mul(FNV_PRIME);
        k = k + 1;
    }
    assert(bytes@.take(k as int) =~= bytes@);
    hash
}

pub open spec fn hex_char(d: u64) -> char {
    if d < 10 {
        ((d + 48) as u8) as char
    } else {
        ((d + 87) as u8) as char
    }
}

/// The 16 lowercase hexadecimal digits of a value, most significant first.
pub open spec fn hex16(h: u64) -> Seq<char> {
    Seq::new(16, |i: int| hex_char((h >> ((60 - 4 * i) as u64)) & 0xf))
}

/// The quoted ETag of some content.
pub open spec fn etag_text(b: Seq<u8>) -> Seq<char> {
    seq!['"'] + hex16(fnv1a_of(b)) + seq!['"']
}

fn hex_char_exec(d: u64) -> (c: char)
    requires
        d < 16,
    ensures
        c == hex_char(d),
{
    if d < 10 {
        ((d + 48) as u8) as char
    } else {
        ((d + 87) as u8) as char
    }
}

/// The 16 lowercase hexadecimal digits of a value.
pub fn hex16_chars(h: u64) -> (v: Vec<char>)
    ensures
        v@ == hex16(h),
{
    let mut v: Vec<char> = Vec::new();
    let mut i: u64 = 0;
    while i < 16
        invariant
            i <= 16,
            v@ == hex16(h).take(i as int),
        decreases 16 - i,
    {
        let sh: u64 = 60 - 4 * i;
        let d = (h >> sh) & 0xf;
        assert(d < 16) by (bit_vector)
            requires
                d == (h >> sh) & 0xf,
        ;
        assert(hex16(h)[i as int] == hex_char(d));
        v.push(hex_char_exec(d));
        assert(hex16(h).take(i + 1) =~= hex16(h).take(i as int).push(hex_char(d)));
        i = i + 1;
    }
    assert(hex16(h).take(16) =~= hex16(h));
    v
}

/// Compute a stable, content-derived ETag (quoted per HTTP).
pub fn etag_for(bytes: &[u8]) -> (r: String)
    ensures
        r@ == etag_text(bytes@),
{
    let h = fnv1a(bytes);
    let hex = hex16_chars(h);
    let mut v: Vec<char> = Vec::new();
    v.push('"');
    let mut i: usize = 0;
    while i < hex.len()
        invariant
            i <= hex@.len(),
            hex@ == hex16(h),
            v@ == seq!['"'] + hex@.take(i as int),
        decreases hex@.len() - i,
    {
        v.push(hex[i]);
        assert(hex@.take(i + 1) =~= hex@.take(i as int).push(hex@[i as int]));
        i = i + 1;
    }
    v.push('"');
    assert(hex@.take(i as int) =~= hex@);
    assert(v@ =~= etag_text(bytes@));
    string_of(v.as_slice())
}

// ---------------------------------------------------------------- extensions

/// Position of the last `c`.
pub open spec fn last_index(s: Seq<char>, c: char) -> Option<int>
    decreases s.len(),
{
    if s.len() == 0 {
        None
    } else if s.last() == c {
        Some(s.len() - 1)
    } else {
        last_index(s.drop_last(), c)
    }
}

/// A path without its trailing slashes.
pub open spec fn strip_trailing_slashes(p: Seq<char>) -> Seq<char>
    decreases p.len(),
{
    if p.len() > 0 && p.last() == '/' {
        strip_trailing_slashes(p.drop_last())
    } else {
        p
    }
}

/// The final component of a path, if it names a file.
pub open spec fn file_name_of(p: Seq<char>) -> Option<Seq<char>> {
    let q = strip_trailing_slashes(p);
    let name = match last_index(q, '/') {
        Some(i) => q.skip(i + 1),
        None => q,
    };
    if name.len() == 0 || name == seq!['.', '.'] || name == seq!['.'] {
        None
    } else {
        Some(name)
    }
}

/// The extension of a path, as `Path::extension` reads it: the text after
/// the last `.` of the file name, unless that `.` starts the name.
pub open spec fn extension_of(p: Seq<char>) -> Option<Seq<char>> {
    match file_name_of(p) {
        None => None,
        Some(name) => match last_index(name, '.') {
            Some(i) => if i > 0 {
                Some(name.skip(i + 1))
            } else {
                None
            },
            None => None,
        },
    }
}

fn last_index_exec(v: &[char], c: char) -> (r: Option<usize>)
    ensures
        r matches Some(i) ==> last_index(v@, c) == Some(i as int) && i < v@.len(),
        r is None ==> last_index(v@, c) is None,
{
    let mut j: usize = v.len();
    assert(v@.take(j as int) =~= v@);
    while j > 0
        invariant
            j <= v@.len(),
            last_index(v@, c) == last_index(v@.take(j as int), c),
        decreases j,
    {
        assert(v@.take(j as int).drop_last() =~= v@.take(j - 1));
        if v[j - 1] == c {
            return Some(j - 1);
        }
        j = j - 1;
    }
    None
}

/// The extension of a path given as text.
pub fn path_extension(path: &str) -> (r: Option<Vec<char>>)
    ensures
        r matches Some(e) ==> extension_of(path@) == Some(e@),
        r is None ==> extension_of(path@) is None,
{
    let p = str_chars(path);
    let mut end: usize = p.len();
    assert(p@.take(end as int) =~= p@);
    while end > 0 && p[end - 1] == '/'
        invariant
            end <= p@.len(),
            strip_trailing_slashes(p@) == strip_trailing_slashes(p@.take(end as int)),
        decreases end,
    {
        assert(p@.take(end as int).drop_last() =~= p@.take(end - 1));
        end = end - 1;
    }
    let q = crate::strs::subvec(p.as_slice(), 0, end);
    assert(q@ =~= p@.take(end as int));
    assert(strip_trailing_slashes(q@) == q@);
    let name = match last_index_exec(q.as_slice(), '/') {
        Some(i) => {
            let n = q.len();
            let t = crate::strs::subvec(q.as_slice(), i + 1, n);
            assert(t@ =~= q@.skip(i + 1));
            t
        },
        None => q,
    };
    if name.len() == 0 || eq_chars(name.as_slice(), &['.', '.']) || eq_chars(name.as_slice(), &['.']) {
        return None;
    }
    match last_index_exec(name.as_slice(), '.') {
        Some(i) => {
            if i > 0 {
                let n = name.len();
                let e = crate::strs::subvec(name.as_slice(), i + 1, n);
                assert(e@ =~= name@.skip(i + 1));
                Some(e)
            } else {
                None
            }
        },
        None => None,
    }
}

pub open spec fn vec_opt_view(e: Option<Vec<char>>) -> Option<Seq<char>> {
    match e {
        Some(v) => Some(v@),
        None => None,
    }
}

pub open spec fn ext_is(e: Option<Seq<char>>, s: Seq<char>) -> bool {
    e == Some(s)
}

/// The content type the fixture server sends for a path, as the corpus
/// README's table gives it: `.rss`, `.atom`, `.xml`, `.md` and `.txt` with
/// `charset=utf-8`, anything else `application/octet-stream`.
pub open spec fn mime_of(p: Seq<char>) -> Seq<char> {
    let e = extension_of(p);
    if ext_is(e, seq!['x', 'm', 'l']) {
        "application/xml; charset=utf-8"@
    } else if ext_is(e, seq!['r', 's', 's']) {
        "application/rss+xml; charset=utf-8"@
    } else if ext_is(e, seq!['a', 't', 'o', 'm']) {
        "application/atom+xml; charset=utf-8"@
    } else if ext_is(e, seq!['m', 'd']) {
        "text/markdown; charset=utf-8"@
    } else if ext_is(e, seq!['t', 'x', 't']) {
        "text/plain; charset=utf-8"@
    } else {
        "application/octet-stream"@
    }
}

fn ext_eq(e: &Option<Vec<char>>, s: &[char]) -> (r: bool)
    ensures
        r == (match e {
            Some(v) => v@ == s@,
            None => false,
        }),
{
    match e {
        Some(v) => eq_chars(v.as_slice(), s),
        None => false,
    }
}

/// Guess a content type from the file extension.
pub fn mime_for(path: &str) -> (r: &'static str)
    ensures
        r@ == mime_of(path@),
{
    let e = path_extension(path);
    assert(vec_opt_view(e) == extension_of(path@));
    let xml: &[char] = &['x', 'm', 'l'];
    let rss: &[char] = &['r', 's', 's'];
    let atom: &[char] = &['a', 't', 'o', 'm'];
    let md: &[char] = &['m', 'd'];
    let txt: &[char] = &['t', 'x', 't'];
    assert(xml@ == seq!['x', 'm', 'l']);
    assert(rss@ == seq!['r', 's', 's']);
    assert(atom@ == seq!['a', 't', 'o', 'm']);
    assert(md@ == seq!['m', 'd']);
    assert(txt@ == seq!['t', 'x', 't']);
    if ext_eq(&e, xml) {
        "application/xml; charset=utf-8"
    } else if ext_eq(&e, rss) {
        "application/rss+xml; charset=utf-8"
    } else if ext_eq(&e, atom) {
        "application/atom+xml; charset=utf-8"
    } else if ext_eq(&e, md) {
        "text/markdown; charset=utf-8"
    } else if ext_eq(&e, txt) {
        "text/plain; charset=utf-8"
    } else {
        "application/octet-stream"
    }
}

/// The content type the command-line server sends for a path.
pub open spec fn content_type_of(p: Seq<char>) -> Seq<char> {
    let e = extension_of(p);
    if ext_is(e, seq!['x', 'm', 'l']) || ext_is(e, seq!['r', 's', 's']) {
        "application/rss+xml; charset=utf-8"@
    } else if ext_is(e, seq!['a', 't', 'o', 'm']) {
        "application/atom+xml; charset=utf-8"@
    } else if ext_is(e, seq!['h', 't', 'm', 'l']) || ext_is(e, seq!['h', 't', 'm']) {
        "text/html; charset=utf-8"@
    } else if ext_is(e, seq!['j', 's', 'o', 'n']) {
        "application/json"@
    } else if ext_is(e, seq!['t', 'x', 't']) || ext_is(e, seq!['m', 'd']) {
        "text/plain; charset=utf-8"@
    } else {
        "application/octet-stream"@
    }
}

/// Content type by extension, as the command-line server picks it.
pub fn content_type(path: &str) -> (r: &'static str)
    ensures
        r@ == content_type_of(path@),
{
    let e = path_extension(path);
    assert(vec_opt_view(e) == extension_of(path@));
    let xml: &[char] = &['x', 'm', 'l'];
    let rss: &[char] = &['r', 's', 's'];
    let atom: &[char] = &['a', 't', 'o', 'm'];
    let html: &[char] = &['h', 't', 'm', 'l'];
    let htm: &[char] = &['h', 't', 'm'];
    let json: &[char] = &['j', 's', 'o', 'n'];
    let txt: &[char] = &['t', 'x', 't'];
    let md: &[char] = &['m', 'd'];
    assert(xml@ == seq!['x', 'm', 'l']);
    assert(rss@ == seq!['r', 's', 's']);
    assert(atom@ == seq!['a', 't', 'o', 'm']);
    assert(html@ == seq!['h', 't', 'm', 'l']);
    assert(htm@ == seq!['h', 't', 'm']);
    assert(json@ == seq!['j', 's', 'o', 'n']);
    assert(txt@ == seq!['t', 'x', 't']);
    assert(md@ == seq!['m', 'd']);
    if ext_eq(&e, xml) || ext_eq(&e, rss) {
        "application/rss+xml; charset=utf-8"
    } else if ext_eq(&e, atom) {
        "application/atom+xml; charset=utf-8"
    } else if ext_eq(&e, html) || ext_eq(&e, htm) {
        "text/html; charset=utf-8"
    } else if ext_eq(&e, json) {
        "application/json"
    } else if ext_eq(&e, txt) || ext_eq(&e, md) {
        "text/plain; charset=utf-8"
    } else {
        "application/octet-stream"
    }
}

// ---------------------------------------------------------------- paths

pub open spec fn strip_leading_slashes(p: Seq<char>) -> Seq<char>
    decreases p.len(),
{
    if p.len() > 0 && p[0] == '/' {
        strip_leading_slashes(p.drop_first())
    } else {
        p
    }
}

/// The requested file relative to the served directory: leading slashes
/// removed, `index.html` for the root.
pub open spec fn rel_path_of(req: Seq<char>) -> Seq<char> {
    let r = strip_leading_slashes(req);
    if r.len() == 0 {
        "index.html"@
    } else {
        r
    }
}

/// Whether some `/`-separated segment is `..`.
pub open spec fn climbs(r: Seq<char>) -> bool {
    exists|i: int| 0 <= i < split_on(r, '/').len() && split_on(r, '/')[i] == seq!['.', '.']
}

/// `Path::join` of a relative path onto a directory.
pub open spec fn join_path(dir: Seq<char>, rel: Seq<char>) -> Seq<char> {
    if dir.len() == 0 {
        rel
    } else if dir.last() == '/' {
        dir + rel
    } else {
        dir + seq!['/'] + rel
    }
}

/// The file a request path names inside `dir`, or `None` when it tries to
/// climb out.
pub open spec fn safe_path_of(dir: Seq<char>, req: Seq<char>) -> Option<Seq<char>> {
    let rel = rel_path_of(req);
    if climbs(rel) {
        None
    } else {
        Some(join_path(dir, rel))
    }
}

/// Map a request path into `dir`, refusing any `..` segment.
pub fn safe_path(dir: &str, req_path: &str) -> (r: Option<String>)
    ensures
        r matches Some(p) ==> safe_path_of(dir@, req_path@) == Some(p@),
        r is None ==> safe_path_of(dir@, req_path@) is None,
{
    let v = str_chars(req_path);
    let mut i: usize = 0;
    assert(v@.skip(0) =~= v@);
    while i < v.len() && v[i] == '/'
        invariant
            i <= v@.len(),
            strip_leading_slashes(v@) == strip_leading_slashes(v@.skip(i as int)),
        decreases v@.len() - i,
    {
        assert(v@.skip(i as int).drop_first() =~= v@.skip(i + 1));
        i = i + 1;
    }
    let n = v.len();
    let stripped = crate::strs::subvec(v.as_slice(), i, n);
    assert(stripped@ =~= v@.skip(i as int));
    let rel: Vec<char> = if stripped.len() == 0 {
        str_chars("index.html")
    } else {
        stripped
    };
    assert(rel@ == rel_path_of(req_path@));
    let segs = split_on_exec(rel.as_slice(), '/');
    let mut k: usize = 0;
    while k < segs.len()
        invariant
            views(segs@) == split_on(rel@, '/'),
            rel@ == rel_path_of(req_path@),
            k <= segs@.len(),
            forall|j: int| 0 <= j < k ==> split_on(rel@, '/')[j] != seq!['.', '.'],
        decreases segs@.len() - k,
    {
        assert(views(segs@)[k as int] == segs@[k as int]@);
        let dotdot: &[char] = &['.', '.'];
        assert(dotdot@ == seq!['.', '.']);
        if eq_chars(segs[k].as_slice(), dotdot) {
            assert(split_on(rel@, '/')[k as int] == seq!['.', '.']);
            assert(climbs(rel@));
            return None;
        }
        k = k + 1;
    }
    assert(views(segs@).len() == segs@.len());
    let d = str_chars(dir);
    let mut out: Vec<char> = Vec::new();
    let mut j: usize = 0;
    while j < d.len()
        invariant
            j <= d@.len(),
            out@ == d@.take(j as int),
        decreases d@.len() - j,
    {
        out.push(d[j]);
        assert(d@.take(j + 1) =~= d@.take(j as int).push(d@[j as int]));
        j = j + 1;
    }
    assert(d@.take(j as int) =~= d@);
    if d.len() > 0 && d[d.len() - 1] != '/' {
        out.push('/');
    }
    let ghost base = out@;
    let mut t: usize = 0;
    while t < rel.len()
        invariant
            t <= rel@.len(),
            out@ == base + rel@.take(t as int),
        decreases rel@.len() - t,
    {
        out.push(rel[t]);
        assert(rel@.take(t + 1) =~= rel@.take(t as int).push(rel@[t as int]));
        t = t + 1;
    }
    assert(rel@.take(t as int) =~= rel@);
    assert(out@ =~= join_path(dir@, rel@));
    Some(string_of(out.as_slice()))
}

// ---------------------------------------------------------------- conditional GET

/// What `NaiveDateTime::parse_from_str(s, "%a, %d %b %Y %H:%M:%S GMT")`
/// gives, read as UTC.
pub uninterp spec fn http_date_of(s: Seq<char>) -> Option<Instant>;

/// `NaiveDateTime::parse_from_str` with the HTTP date format, read as UTC.
/// Nothing is claimed of which strings it accepts.
#[verifier::external_body]
fn parse_http_date(s: &str) -> (r: Option<Instant>)
    ensures
        r == http_date_of(s@),
{
    let naive = chrono::NaiveDateTime::parse_from_str(s, "%a, %d %b %Y %H:%M:%S GMT").ok()?;
    let dt = naive.and_utc();
    Some(Instant { secs: dt.timestamp(), nanos: dt.timestamp_subsec_nanos() })
}

/// `a` is not later than `b`.
pub open spec fn instant_le(a: Instant, b: Instant) -> bool {
    a.secs < b.secs || (a.secs == b.secs && a.nanos <= b.nanos)
}

/// An `If-None-Match` value matches: `*`, or one of its comma-separated
/// tags (trimmed) is the ETag.
pub open spec fn none_match_hits(inm: Seq<char>, etag: Seq<char>) -> bool {
    trim(inm) == seq!['*'] || exists|i: int|
        0 <= i < split_on(inm, ',').len() && trim(split_on(inm, ',')[i]) == etag
}

/// An `If-Modified-Since` date at or after the last modification.
pub open spec fn modified_since_hits(ims: Seq<char>, lm: Seq<char>) -> bool {
    match (http_date_of(trim(ims)), http_date_of(trim(lm))) {
        (Some(a), Some(b)) => instant_le(b, a),
        _ => false,
    }
}

/// Whether a conditional request is answered `304 Not Modified`.
pub open spec fn not_modified_for(
    inm: Option<Seq<char>>,
    ims: Option<Seq<char>>,
    etag: Seq<char>,
    lm: Option<Seq<char>>,
) -> bool {
    (inm matches Some(v) && none_match_hits(v, etag)) || (ims matches Some(a) && lm matches Some(b)
        && modified_since_hits(a, b))
}

pub open spec fn str_opt_view(o: Option<&str>) -> Option<Seq<char>> {
    match o {
        Some(s) => Some(s@),
        None => None,
    }
}

fn http_date_trimmed(s: &str) -> (r: Option<Instant>)
    ensures
        r == http_date_of(trim(s@)),
{
    let v = str_chars(s);
    let t = string_of(trim_vec(v.as_slice()).as_slice());
    parse_http_date(t.as_str())
}

/// Decide a conditional GET from the request's `If-None-Match` and
/// `If-Modified-Since` headers and the file's ETag and `Last-Modified`.
pub fn is_not_modified(
    if_none_match: Option<&str>,
    if_modified_since: Option<&str>,
    etag: &str,
    last_modified: Option<&str>,
) -> (r: bool)
    ensures
        r == not_modified_for(
            str_opt_view(if_none_match),
            str_opt_view(if_modified_since),
            etag@,
            str_opt_view(last_modified),
        ),
{
    if let Some(inm) = if_none_match {
        let v = str_chars(inm);
        let t = trim_vec(v.as_slice());
        let star: &[char] = &['*'];
        assert(star@ == seq!['*']);
        if eq_chars(t.as_slice(), star) {
            assert(trim(inm@) == seq!['*']);
            assert(none_match_hits(inm@, etag@));
            return true;
        }
        let want = str_chars(etag);
        let parts = split_on_exec(v.as_slice(), ',');
        let mut k: usize = 0;
        while k < parts.len()
            invariant
                if_none_match == Some(inm),
                views(parts@) == split_on(inm@, ','),
                want@ == etag@,
                k <= parts@.len(),
                forall|j: int| 0 <= j < k ==> trim(split_on(inm@, ',')[j]) != etag@,
            decreases parts@.len() - k,
        {
            assert(views(parts@)[k as int] == parts@[k as int]@);
            let p = trim_vec(parts[k].as_slice());
            if eq_chars(p.as_slice(), want.as_slice()) {
                assert(trim(split_on(inm@, ',')[k as int]) == etag@);
                assert(none_match_hits(inm@, etag@));
                return true;
            }
            k = k + 1;
        }
        assert(views(parts@).len() == parts@.len());
    }
    match (if_modified_since, last_modified) {
        (Some(ims), Some(lm)) => {
            match (http_date_trimmed(ims), http_date_trimmed(lm)) {
                (Some(a), Some(b)) => b.secs < a.secs || (b.secs == a.secs && b.nanos <= a.nanos),
                _ => false,
            }
        },
        _ => false,
    }
}

/// `If-Modified-Since` answers 304 exactly when the file was last modified
/// at or before the given date: a client that echoes the `Last-Modified` it
/// was sent gets 304, one that names a later date does too, and one that
/// names an earlier date gets the file. An unreadable date never hits.
pub proof fn law_if_modified_since(ims: Seq<char>, lm: Seq<char>, etag: Seq<char>)
    ensures
        http_date_of(trim(lm)) is Some ==> modified_since_hits(lm, lm),
        http_date_of(trim(lm)) is Some ==> not_modified_for(None, Some(lm), etag, Some(lm)),
        ({
            let a = http_date_of(trim(ims))->0;
            let b = http_date_of(trim(lm))->0;
            http_date_of(trim(ims)) is Some && http_date_of(trim(lm)) is Some ==> (modified_since_hits(ims, lm) <==> (
            b.secs < a.secs || (b.secs == a.secs && b.nanos <= a.nanos)))
        }),
        http_date_of(trim(ims)) is None || http_date_of(trim(lm)) is None ==> !modified_since_hits(ims, lm),
{
}

} // verus!
