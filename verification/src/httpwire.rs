//! HTTP/1.1 on the wire for the fixture server: reading the request line
//! and header lines, and writing the plain, `304` and `200` responses.
//!
//! The socket handling lives outside; what goes over it is decided here.
use vstd::prelude::*;
use vstd::utf8::encode_utf8;
use crate::fileserve::{etag_for, etag_text, is_not_modified, mime_for, mime_of, not_modified_for, safe_path, safe_path_of, str_opt_view};
use crate::strs::{
    eq_chars, find_char, find_char_exec, lower, lower_vec, push_chars, push_str, split_ws, str_chars, string_of,
    subvec, trim, trim_vec, views, ws_tokens,
};

verus! {

/// The ASCII digit of a value below ten.
pub open spec fn digit_char(d: int) -> char {
    ((d + 48) as u8) as char
}

/// The decimal digits of a number, most significant first.
pub open spec fn dec_digits(n: nat) -> Seq<char>
    decreases n,
{
    if n < 10 {
        seq![digit_char(n as int)]
    } else {
        dec_digits(n / 10) + seq![digit_char((n % 10) as int)]
    }
}

/// The decimal text of a number.
pub fn dec_text(n: u64) -> (r: Vec<char>)
    ensures
        r@ == dec_digits(n as nat),
    decreases n,
{
    let d = (n % 10) as u8;
    let c = (d + 48) as char;
    if n < 10 {
        let mut v: Vec<char> = Vec::new();
        v.push(c);
        assert(v@ =~= seq![c]);
        v
    } else {
        let mut v = dec_text(n / 10);
        v.push(c);
        v
    }
}

/// The decimal text of a signed number, `-` before a negative one.
pub open spec fn int_text(n: int) -> Seq<char> {
    if n < 0 {
        seq!['-'] + dec_digits((-n) as nat)
    } else {
        dec_digits(n as nat)
    }
}

/// The decimal text of an `i64`.
pub fn i64_text(n: i64) -> (r: Vec<char>)
    ensures
        r@ == int_text(n as int),
{
    if n < 0 {
        let m: u64 = if n == i64::MIN {
            0x8000_0000_0000_0000u64
        } else {
            (0 - n) as u64
        };
        let mut v: Vec<char> = Vec::new();
        v.push('-');
        let d = dec_text(m);
        push_chars(&mut v, d.as_slice());
        assert(v@ =~= seq!['-'] + dec_digits((-n) as nat));
        v
    } else {
        dec_text(n as u64)
    }
}

/// A plain-text response with the given status line and body.
pub open spec fn simple_text(code: u16, reason: Seq<char>, body: Seq<char>) -> Seq<char> {
    "HTTP/1.1 "@ + dec_digits(code as nat) + seq![' '] + reason
        + "\r\nContent-Type: text/plain; charset=utf-8\r\nContent-Length: "@ + dec_digits(
        (encode_utf8(body).len() as usize) as nat,
    ) + "\r\nConnection: close\r\n\r\n"@ + body
}

/// A plain-text response.
pub fn simple(code: u16, reason: &str, body: &str) -> (r: String)
    ensures
        r@ == simple_text(code, reason@, body@),
{
    let mut v = str_chars("HTTP/1.1 ");
    let c = dec_text(code as u64);
    push_chars(&mut v, c.as_slice());
    v.push(' ');
    push_str(&mut v, reason);
    push_str(&mut v, "\r\nContent-Type: text/plain; charset=utf-8\r\nContent-Length: ");
    let n = body.len();
    assert(n == encode_utf8(body@).len() as usize);
    let l = dec_text(n as u64);
    push_chars(&mut v, l.as_slice());
    push_str(&mut v, "\r\nConnection: close\r\n\r\n");
    push_str(&mut v, body);
    assert(v@ =~= simple_text(code, reason@, body@));
    string_of(v.as_slice())
}

pub open spec fn last_modified_line(lm: Option<Seq<char>>) -> Seq<char> {
    match lm {
        Some(l) => "Last-Modified: "@ + l + "\r\n"@,
        None => Seq::empty(),
    }
}

/// A `304 Not Modified` response.
pub open spec fn not_modified_text(etag: Seq<char>, lm: Option<Seq<char>>) -> Seq<char> {
    "HTTP/1.1 304 Not Modified\r\nETag: "@ + etag + "\r\nConnection: close\r\n"@ + last_modified_line(lm)
        + "\r\n"@
}

fn push_last_modified(v: &mut Vec<char>, lm: Option<&str>)
    ensures
        final(v)@ == old(v)@ + last_modified_line(str_opt_view(lm)),
{
    match lm {
        Some(l) => {
            push_str(v, "Last-Modified: ");
            push_str(v, l);
            push_str(v, "\r\n");
            assert(final(v)@ =~= old(v)@ + last_modified_line(str_opt_view(lm)));
        },
        None => {
            assert(old(v)@ + Seq::<char>::empty() =~= old(v)@);
        },
    }
}

/// A `304 Not Modified` response.
pub fn not_modified(etag: &str, last_modified: Option<&str>) -> (r: String)
    ensures
        r@ == not_modified_text(etag@, str_opt_view(last_modified)),
{
    let mut v = str_chars("HTTP/1.1 304 Not Modified\r\nETag: ");
    push_str(&mut v, etag);
    push_str(&mut v, "\r\nConnection: close\r\n");
    push_last_modified(&mut v, last_modified);
    push_str(&mut v, "\r\n");
    assert(v@ =~= not_modified_text(etag@, str_opt_view(last_modified)));
    string_of(v.as_slice())
}

/// The head of a `200 OK` response for a file.
pub open spec fn ok_head_text(ctype: Seq<char>, len: nat, etag: Seq<char>, lm: Option<Seq<char>>) -> Seq<char> {
    "HTTP/1.1 200 OK\r\nContent-Type: "@ + ctype + "\r\nContent-Length: "@ + dec_digits(len) + "\r\nETag: "@
        + etag + "\r\nConnection: close\r\n"@ + last_modified_line(lm) + "\r\n"@
}

fn ok_head(ctype: &str, len: usize, etag: &str, last_modified: Option<&str>) -> (r: Vec<char>)
    ensures
        r@ == ok_head_text(ctype@, len as nat, etag@, str_opt_view(last_modified)),
{
    let mut v = str_chars("HTTP/1.1 200 OK\r\nContent-Type: ");
    push_str(&mut v, ctype);
    push_str(&mut v, "\r\nContent-Length: ");
    let l = dec_text(len as u64);
    push_chars(&mut v, l.as_slice());
    push_str(&mut v, "\r\nETag: ");
    push_str(&mut v, etag);
    push_str(&mut v, "\r\nConnection: close\r\n");
    push_last_modified(&mut v, last_modified);
    push_str(&mut v, "\r\n");
    assert(v@ =~= ok_head_text(ctype@, len as nat, etag@, str_opt_view(last_modified)));
    v
}

/// The UTF-8 bytes of a text.
fn text_bytes(t: &str) -> (r: Vec<u8>)
    ensures
        r@ == encode_utf8(t@),
{
    let b = t.as_bytes();
    let mut out: Vec<u8> = Vec::new();
    let mut i: usize = 0;
    while i < b.len()
        invariant
            i <= b@.len(),
            out@ == b@.take(i as int),
        decreases b@.len() - i,
    {
        out.push(b[i]);
        assert(b@.take(i + 1) =~= b@.take(i as int).push(b@[i as int]));
        i = i + 1;
    }
    assert(b@.take(i as int) =~= b@);
    out
}

pub open spec fn is_get_or_head(method: Seq<char>) -> bool {
    method == seq!['G', 'E', 'T'] || method == seq!['H', 'E', 'A', 'D']
}

/// Where a request leads before any file is read: the file to serve, or
/// the response that refuses it (`405` for a method other than `GET` and
/// `HEAD`, `403` for a path that climbs out of the directory).
pub open spec fn target_of(method: Seq<char>, dir: Seq<char>, path: Seq<char>) -> Result<Seq<char>, Seq<char>> {
    if !is_get_or_head(method) {
        Err(simple_text(405, "Method Not Allowed"@, "method not allowed"@))
    } else {
        match safe_path_of(dir, path) {
            Some(p) => Ok(p),
            None => Err(simple_text(403, "Forbidden"@, "forbidden"@)),
        }
    }
}

/// Decide where a request leads.
pub fn request_target(method: &str, dir: &str, path: &str) -> (r: Result<String, String>)
    ensures
        match r {
            Ok(p) => target_of(method@, dir@, path@) == Ok::<Seq<char>, Seq<char>>(p@),
            Err(t) => target_of(method@, dir@, path@) == Err::<Seq<char>, Seq<char>>(t@),
        },
{
    let m = str_chars(method);
    let get: &[char] = &['G', 'E', 'T'];
    let head: &[char] = &['H', 'E', 'A', 'D'];
    assert(get@ == seq!['G', 'E', 'T']);
    assert(head@ == seq!['H', 'E', 'A', 'D']);
    if !(eq_chars(m.as_slice(), get) || eq_chars(m.as_slice(), head)) {
        return Err(simple(405, "Method Not Allowed", "method not allowed"));
    }
    match safe_path(dir, path) {
        Some(p) => Ok(p),
        None => Err(simple(403, "Forbidden", "forbidden")),
    }
}

/// The response for a file that was read: `304` when the request's
/// validators match, else `200` with the headers and, for `GET`, the body.
pub open spec fn file_response_of(
    method: Seq<char>,
    path: Seq<char>,
    body: Seq<u8>,
    last_modified: Option<Seq<char>>,
    if_none_match: Option<Seq<char>>,
    if_modified_since: Option<Seq<char>>,
) -> Seq<u8> {
    let etag = etag_text(body);
    if not_modified_for(if_none_match, if_modified_since, etag, last_modified) {
        encode_utf8(not_modified_text(etag, last_modified))
    } else {
        let head = encode_utf8(ok_head_text(mime_of(path), body.len(), etag, last_modified));
        if method == seq!['G', 'E', 'T'] {
            head + body
        } else {
            head
        }
    }
}

/// Build the response for a file that was read.
pub fn file_response(
    method: &str,
    path: &str,
    body: &[u8],
    last_modified: Option<&str>,
    if_none_match: Option<&str>,
    if_modified_since: Option<&str>,
) -> (r: Vec<u8>)
    ensures
        r@ == file_response_of(
            method@,
            path@,
            body@,
            str_opt_view(last_modified),
            str_opt_view(if_none_match),
            str_opt_view(if_modified_since),
        ),
{
    let etag = etag_for(body);
    if is_not_modified(if_none_match, if_modified_since, etag.as_str(), last_modified) {
        let t = not_modified(etag.as_str(), last_modified);
        return text_bytes(t.as_str());
    }
    let ctype = mime_for(path);
    let head = ok_head(ctype, body.len(), etag.as_str(), last_modified);
    let hs = string_of(head.as_slice());
    let mut out = text_bytes(hs.as_str());
    let m = str_chars(method);
    let get: &[char] = &['G', 'E', 'T'];
    assert(get@ == seq!['G', 'E', 'T']);
    if eq_chars(m.as_slice(), get) {
        let mut i: usize = 0;
        let ghost h = out@;
        while i < body.len()
            invariant
                i <= body@.len(),
                out@ == h + body@.take(i as int),
            decreases body@.len() - i,
        {
            out.push(body[i]);
            assert(body@.take(i + 1) =~= body@.take(i as int).push(body@[i as int]));
            i = i + 1;
        }
        assert(body@.take(i as int) =~= body@);
    }
    out
}

/// The text of a request target before its first `?` or `#`.
pub open spec fn path_part(raw: Seq<char>) -> Seq<char>
    decreases raw.len(),
{
    if raw.len() == 0 || raw[0] == '?' || raw[0] == '#' {
        Seq::empty()
    } else {
        seq![raw[0]] + path_part(raw.drop_first())
    }
}

/// The method and path of a request line: its first two whitespace-separated
/// tokens (empty when missing), the path cut at `?` or `#`.
pub open spec fn request_line_of(line: Seq<char>) -> (Seq<char>, Seq<char>) {
    let t = ws_tokens(line);
    (
        if t.len() > 0 {
            t[0]
        } else {
            Seq::empty()
        },
        path_part(
            if t.len() > 1 {
                t[1]
            } else {
                Seq::empty()
            },
        ),
    )
}

/// Read a request line.
pub fn request_line(line: &str) -> (r: (String, String))
    ensures
        (r.0@, r.1@) == request_line_of(line@),
{
    let v = str_chars(line);
    let t = split_ws(v.as_slice());
    assert(views(t@).len() == t@.len());
    let method: Vec<char> = if t.len() > 0 {
        assert(views(t@)[0] == t@[0]@);
        subvec(t[0].as_slice(), 0, t[0].len())
    } else {
        Vec::new()
    };
    let raw: Vec<char> = if t.len() > 1 {
        assert(views(t@)[1] == t@[1]@);
        subvec(t[1].as_slice(), 0, t[1].len())
    } else {
        Vec::new()
    };
    proof {
        if t@.len() > 0 {
            assert(method@ =~= t@[0]@);
        } else {
            assert(method@ =~= Seq::<char>::empty());
        }
        if t@.len() > 1 {
            assert(raw@ =~= t@[1]@);
        } else {
            assert(raw@ =~= Seq::<char>::empty());
        }
    }
    let mut i: usize = 0;
    let mut path: Vec<char> = Vec::new();
    assert(raw@.skip(0) =~= raw@);
    while i < raw.len() && raw[i] != '?' && raw[i] != '#'
        invariant
            i <= raw@.len(),
            path_part(raw@) == path@ + path_part(raw@.skip(i as int)),
        decreases raw@.len() - i,
    {
        assert(raw@.skip(i as int)[0] == raw@[i as int]);
        assert(raw@.skip(i as int).drop_first() =~= raw@.skip(i + 1));
        let ghost p0 = path@;
        path.push(raw[i]);
        assert(path@ =~= p0 + seq![raw@[i as int]]);
        assert(path_part(raw@) == path@ + path_part(raw@.skip(i + 1)));
        i = i + 1;
    }
    proof {
        if i < raw@.len() {
            assert(raw@.skip(i as int)[0] == raw@[i as int]);
        }
        assert(path_part(raw@.skip(i as int)) =~= Seq::<char>::empty());
        assert(path@ + Seq::<char>::empty() =~= path@);
    }
    (string_of(method.as_slice()), string_of(path.as_slice()))
}

/// A header line split at its first `:`: the name trimmed and lowercased,
/// the value trimmed; `None` without a `:`.
pub open spec fn header_line_of(line: Seq<char>) -> Option<(Seq<char>, Seq<char>)> {
    match find_char(line, ':') {
        Some(i) => Some((lower(trim(line.take(i))), trim(line.skip(i + 1)))),
        None => None,
    }
}

/// Read a header line.
pub fn header_line(line: &str) -> (r: Option<(String, String)>)
    ensures
        match r {
            Some((k, v)) => header_line_of(line@) == Some((k@, v@)),
            None => header_line_of(line@) is None,
        },
{
    let v = str_chars(line);
    match find_char_exec(v.as_slice(), ':') {
        Some(i) => {
            let n = v.len();
            assert(i < n);
            let k = subvec(v.as_slice(), 0, i);
            let rest = subvec(v.as_slice(), i + 1, n);
            assert(k@ =~= line@.take(i as int));
            assert(rest@ =~= line@.skip(i + 1));
            let kt = trim_vec(k.as_slice());
            let kl = lower_vec(kt.as_slice());
            let vt = trim_vec(rest.as_slice());
            Some((string_of(kl.as_slice()), string_of(vt.as_slice())))
        },
        None => None,
    }
}

} // verus!

verus! {

/// A `HEAD` request gets the headers of the `200` response without the
/// body; a `GET` request gets the headers followed by the file's bytes; a
/// matching conditional request gets a `304` without the body.
pub proof fn law_bodies(
    path: Seq<char>,
    body: Seq<u8>,
    lm: Option<Seq<char>>,
    inm: Option<Seq<char>>,
    ims: Option<Seq<char>>,
)
    ensures
        ({
            let etag = etag_text(body);
            let head = encode_utf8(ok_head_text(mime_of(path), body.len(), etag, lm));
            &&& not_modified_for(inm, ims, etag, lm) ==> file_response_of(seq!['G', 'E', 'T'], path, body, lm, inm, ims)
                == encode_utf8(not_modified_text(etag, lm))
            &&& !not_modified_for(inm, ims, etag, lm) ==> file_response_of(seq!['G', 'E', 'T'], path, body, lm, inm, ims)
                == head + body
            &&& !not_modified_for(inm, ims, etag, lm) ==> file_response_of(seq!['H', 'E', 'A', 'D'], path, body, lm, inm, ims)
                == head
        }),
{
    assert(seq!['H', 'E', 'A', 'D'] != seq!['G', 'E', 'T']) by {
        assert(seq!['H', 'E', 'A', 'D'].len() != seq!['G', 'E', 'T'].len());
    }
}

} // verus!
