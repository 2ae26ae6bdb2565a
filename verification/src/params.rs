//! Request helpers of the REST server: URL validation, query-string
//! decoding and instant parameters.
use vstd::prelude::*;
use crate::instant::{parse_rfc3339_utc, rfc3339_instant, to_millis, Instant};
use crate::strs::{eq_chars, lower, lower_vec, str_chars, string_of, subvec, trim, trim_vec};

verus! {

/// The characters `String::from_utf8_lossy` makes of a byte sequence:
/// valid UTF-8 decoded, each invalid sequence replaced by U+FFFD.
pub uninterp spec fn utf8_lossy(b: Seq<u8>) -> Seq<char>;

/// `String::from_utf8_lossy(..).into_owned()`: the documentation promises
/// that valid UTF-8 is decoded as it stands; what an invalid sequence
/// becomes is left to the name.
#[verifier::external_body]
pub(crate) fn from_utf8_lossy(b: &[u8]) -> (r: String)
    ensures
        r@ == utf8_lossy(b@),
        vstd::utf8::valid_utf8(b@) ==> r@ == vstd::utf8::decode_utf8(b@),
{
    String::from_utf8_lossy(b).into_owned()
}

pub open spec fn hex_val(b: u8) -> int {
    if 0x30 <= b <= 0x39 {
        b - 0x30
    } else if 0x61 <= b <= 0x66 {
        b - 0x61 + 10
    } else if 0x41 <= b <= 0x46 {
        b - 0x41 + 10
    } else {
        -1
    }
}

pub open spec fn is_hex(b: u8) -> bool {
    hex_val(b) >= 0
}

/// `%XX` escapes decoded; every other byte (`+` included) kept.
pub open spec fn pct_decode(b: Seq<u8>) -> Seq<u8>
    decreases b.len(),
{
    if b.len() == 0 {
        b
    } else if b[0] == 0x25 && b.len() >= 3 && is_hex(b[1]) && is_hex(b[2]) {
        seq![(hex_val(b[1]) * 16 + hex_val(b[2])) as u8] + pct_decode(b.skip(3))
    } else {
        seq![b[0]] + pct_decode(b.drop_first())
    }
}

/// What [`percent_decode`] returns for the bytes of its input: the decoded
/// bytes read as UTF-8 when they are valid UTF-8, else read lossily.
pub open spec fn decoded(b: Seq<u8>) -> Seq<char> {
    let d = pct_decode(b);
    if vstd::utf8::valid_utf8(d) {
        vstd::utf8::decode_utf8(d)
    } else {
        utf8_lossy(d)
    }
}

fn hex_digit(b: u8) -> (r: Option<u8>)
    ensures
        r matches Some(v) ==> is_hex(b) && v == hex_val(b),
        r is None ==> !is_hex(b),
{
    if b >= 0x30 && b <= 0x39 {
        Some(b - 0x30)
    } else if b >= 0x61 && b <= 0x66 {
        Some(b - 0x61 + 10)
    } else if b >= 0x41 && b <= 0x46 {
        Some(b - 0x41 + 10)
    } else {
        None
    }
}

fn pct_decode_bytes(b: &[u8]) -> (r: Vec<u8>)
    ensures
        r@ == pct_decode(b@),
{
    let mut out: Vec<u8> = Vec::new();
    let mut i: usize = 0;
    assert(b@.skip(0) =~= b@);
    while i < b.len()
        invariant
            i <= b@.len(),
            out@ + pct_decode(b@.skip(i as int)) == pct_decode(b@),
        decreases b@.len() - i,
    {
        let ghost rest = b@.skip(i as int);
        if b[i] == 0x25 && b.len() - i >= 3 {
            if let (Some(h), Some(l)) = (hex_digit(b[i + 1]), hex_digit(b[i + 2])) {
                let v: u8 = h * 16 + l;
                assert(rest[1] == b@[i + 1] && rest[2] == b@[i + 2]);
                assert(rest.skip(3) =~= b@.skip(i + 3));
                let ghost before = out@;
                out.push(v);
                assert(out@ + pct_decode(b@.skip(i + 3)) =~= before + pct_decode(rest));
                i = i + 3;
                continue;
            } else {
                assert(!(is_hex(rest[1]) && is_hex(rest[2])));
            }
        }
        assert(rest.drop_first() =~= b@.skip(i + 1));
        let ghost before = out@;
        out.push(b[i]);
        assert(out@ + pct_decode(b@.skip(i + 1)) =~= before + pct_decode(rest));
        i = i + 1;
    }
    assert(b@.skip(i as int) =~= Seq::<u8>::empty());
    assert(out@ + Seq::<u8>::empty() =~= out@);
    out
}

/// Decode `%XX` escapes. `+` is left as-is so RFC 3339 offsets survive.
pub fn percent_decode(input: &str) -> (r: String)
    ensures
        r@ == decoded(vstd::utf8::encode_utf8(input@)),
{
    let b = input.as_bytes();
    let out = pct_decode_bytes(b);
    from_utf8_lossy(out.as_slice())
}

// ---------------------------------------------------------------- queries

/// The pieces of a byte string between separators.
pub open spec fn split_bytes_acc(s: Seq<u8>, sep: u8, cur: Seq<u8>) -> Seq<Seq<u8>>
    decreases s.len(),
{
    if s.len() == 0 {
        seq![cur]
    } else if s[0] == sep {
        seq![cur] + split_bytes_acc(s.drop_first(), sep, Seq::empty())
    } else {
        split_bytes_acc(s.drop_first(), sep, cur.push(s[0]))
    }
}

pub open spec fn split_bytes(s: Seq<u8>, sep: u8) -> Seq<Seq<u8>> {
    split_bytes_acc(s, sep, Seq::empty())
}

/// Index of the first `c`.
pub open spec fn find_byte(s: Seq<u8>, c: u8) -> Option<int>
    decreases s.len(),
{
    if s.len() == 0 {
        None
    } else if s[0] == c {
        Some(0)
    } else {
        match find_byte(s.drop_first(), c) {
            Some(i) => Some(i + 1),
            None => None,
        }
    }
}

/// A `key=value` piece split at its first `=`; no `=` gives an empty value.
pub open spec fn key_value(p: Seq<u8>) -> (Seq<u8>, Seq<u8>) {
    match find_byte(p, 0x3d) {
        Some(i) => (p.take(i), p.skip(i + 1)),
        None => (p, Seq::empty()),
    }
}

/// The decoded (key, value) pairs of the non-empty `&`-separated pieces,
/// in order.
pub open spec fn query_pairs_upto(pieces: Seq<Seq<u8>>, n: int) -> Seq<(Seq<char>, Seq<char>)>
    decreases n,
{
    if n <= 0 {
        Seq::empty()
    } else {
        let r = query_pairs_upto(pieces, n - 1);
        let p = pieces[n - 1];
        if p.len() == 0 {
            r
        } else {
            r.push((decoded(key_value(p).0), decoded(key_value(p).1)))
        }
    }
}

pub open spec fn query_pairs(q: Seq<u8>) -> Seq<(Seq<char>, Seq<char>)> {
    let pieces = split_bytes(q, 0x26);
    query_pairs_upto(pieces, pieces.len() as int)
}

/// The map that inserting the pairs in order builds (a later key wins).
pub open spec fn map_of(pairs: Seq<(Seq<char>, Seq<char>)>) -> Map<Seq<char>, Seq<char>>
    decreases pairs.len(),
{
    if pairs.len() == 0 {
        Map::empty()
    } else {
        map_of(pairs.drop_last()).insert(pairs.last().0, pairs.last().1)
    }
}

/// Decoded query parameters, a later key replacing an earlier one.
pub struct QueryMap {
    entries: Vec<(String, String)>,
}

closed spec fn pair_views(v: Seq<(String, String)>) -> Seq<(Seq<char>, Seq<char>)> {
    v.map_values(|p: (String, String)| (p.0@, p.1@))
}

impl View for QueryMap {
    type V = Map<Seq<char>, Seq<char>>;

    closed spec fn view(&self) -> Map<Seq<char>, Seq<char>> {
        map_of(pair_views(self.entries@))
    }
}

impl QueryMap {
    closed spec fn keys_unique(&self) -> bool {
        forall|i: int, j: int|
            0 <= i < j < self.entries@.len() ==> self.entries@[i].0@ != self.entries@[j].0@
    }

    pub closed spec fn wf(&self) -> bool {
        self.keys_unique()
    }

    pub fn new() -> (m: QueryMap)
        ensures
            m.wf(),
            m@ == Map::<Seq<char>, Seq<char>>::empty(),
    {
        let m = QueryMap { entries: Vec::new() };
        assert(pair_views(m.entries@) =~= Seq::<(Seq<char>, Seq<char>)>::empty());
        m
    }

    proof fn lemma_map_of_unique(s: Seq<(Seq<char>, Seq<char>)>, i: int)
        requires
            0 <= i < s.len(),
            forall|a: int, b: int| 0 <= a < b < s.len() ==> s[a].0 != s[b].0,
        ensures
            map_of(s).contains_key(s[i].0),
            map_of(s)[s[i].0] == s[i].1,
        decreases s.len(),
    {
        if i < s.len() - 1 {
            Self::lemma_map_of_unique(s.drop_last(), i);
            assert(s.drop_last()[i] == s[i]);
            assert(s[i].0 != s.last().0);
        }
    }

    proof fn lemma_map_of_absent(s: Seq<(Seq<char>, Seq<char>)>, k: Seq<char>)
        requires
            forall|a: int| 0 <= a < s.len() ==> s[a].0 != k,
        ensures
            !map_of(s).contains_key(k),
        decreases s.len(),
    {
        if s.len() > 0 {
            assert forall|a: int| 0 <= a < s.drop_last().len() implies s.drop_last()[a].0 != k by {
                assert(s.drop_last()[a] == s[a]);
            }
            Self::lemma_map_of_absent(s.drop_last(), k);
        }
    }

    /// The value of a key.
    pub fn get(&self, key: &str) -> (r: Option<&String>)
        requires
            self.wf(),
        ensures
            r matches Some(v) ==> self@.contains_key(key@) && self@[key@] == v@,
            r is None ==> !self@.contains_key(key@),
    {
        let k = str_chars(key);
        let mut i: usize = 0;
        while i < self.entries.len()
            invariant
                self.wf(),
                i <= self.entries@.len(),
                k@ == key@,
                forall|a: int| 0 <= a < i ==> self.entries@[a].0@ != key@,
            decreases self.entries@.len() - i,
        {
            let e = str_chars(self.entries[i].0.as_str());
            if eq_chars(e.as_slice(), k.as_slice()) {
                proof {
                    let s = pair_views(self.entries@);
                    assert forall|a: int, b: int| 0 <= a < b < s.len() implies s[a].0 != s[b].0 by {
                        assert(s[a].0 == self.entries@[a].0@);
                        assert(s[b].0 == self.entries@[b].0@);
                    }
                    Self::lemma_map_of_unique(s, i as int);
                    assert(s[i as int] == (self.entries@[i as int].0@, self.entries@[i as int].1@));
                }
                return Some(&self.entries[i].1);
            }
            i = i + 1;
        }
        proof {
            let s = pair_views(self.entries@);
            assert forall|a: int| 0 <= a < s.len() implies s[a].0 != key@ by {
                assert(s[a].0 == self.entries@[a].0@);
            }
            Self::lemma_map_of_absent(s, key@);
        }
        None
    }

    /// Insert a pair; an existing key gets the new value.
    pub fn insert(&mut self, key: String, value: String)
        requires
            old(self).wf(),
        ensures
            final(self).wf(),
            final(self)@ == old(self)@.insert(key@, value@),
    {
        let ghost s0 = pair_views(self.entries@);
        let ghost e0 = self.entries@;
        let k = str_chars(key.as_str());
        let mut i: usize = 0;
        while i < self.entries.len()
            invariant
                self.entries@ == e0,
                s0 == pair_views(e0),
                old(self).wf(),
                old(self).entries@ == e0,
                i <= self.entries@.len(),
                k@ == key@,
                forall|a: int| 0 <= a < i ==> self.entries@[a].0@ != key@,
            decreases self.entries@.len() - i,
        {
            let e = str_chars(self.entries[i].0.as_str());
            if eq_chars(e.as_slice(), k.as_slice()) {
                let ghost old_entries = self.entries@;
                self.entries.set(i, (key, value));
                proof {
                    let s1 = pair_views(self.entries@);
                    assert forall|a: int| 0 <= a < self.entries@.len() implies (#[trigger] self.entries@[a]).0@
                        == old_entries[a].0@ by {
                        if a == i {
                            assert(k@ == e@);
                        }
                    }
                    assert forall|a: int, b: int|
                        0 <= a < b < self.entries@.len() implies self.entries@[a].0@ != self.entries@[b].0@ by {
                        assert(self.entries@[a].0@ == old_entries[a].0@);
                        assert(self.entries@[b].0@ == old_entries[b].0@);
                    }
                    assert(s1.len() == s0.len());
                    assert forall|a: int| 0 <= a < s0.len() && a != i implies s1[a] == s0[a] by {
                        assert(self.entries@[a] == old_entries[a]);
                    }
                    assert(s1[i as int].0 == s0[i as int].0) by {
                        assert(self.entries@[i as int].0@ == old_entries[i as int].0@);
                    }
                    assert forall|a: int, b: int| 0 <= a < b < s0.len() implies s0[a].0 != s0[b].0 by {
                        assert(s0[a].0 == old_entries[a].0@);
                        assert(s0[b].0 == old_entries[b].0@);
                    }
                    lemma_map_of_ext(s0, s1, i as int);
                }
                return ;
            }
            i = i + 1;
        }
        let ghost old_entries = self.entries@;
        self.entries.push((key, value));
        proof {
            let s1 = pair_views(self.entries@);
            assert(self.entries@ == old_entries.push((key, value)));
            assert forall|a: int| 0 <= a < s1.len() implies s1[a] == s0.push((key@, value@))[a] by {
                if a < old_entries.len() {
                    assert(self.entries@[a] == old_entries[a]);
                }
            }
            assert(s1 =~= s0.push((key@, value@)));
            assert(s1.drop_last() =~= s0);
            assert forall|a: int, b: int|
                0 <= a < b < self.entries@.len() implies self.entries@[a].0@ != self.entries@[b].0@ by {
                if b < old_entries.len() {
                    assert(self.entries@[a] == old_entries[a]);
                    assert(self.entries@[b] == old_entries[b]);
                }
            }
        }
    }
}

/// Replacing the value at a position whose key occurs nowhere else
/// inserts that key's new value into the map.
proof fn lemma_map_of_ext(s0: Seq<(Seq<char>, Seq<char>)>, s1: Seq<(Seq<char>, Seq<char>)>, i: int)
    requires
        0 <= i < s0.len(),
        s1.len() == s0.len(),
        s1[i].0 == s0[i].0,
        forall|a: int| 0 <= a < s0.len() && a != i ==> s1[a] == s0[a],
        forall|a: int, b: int| 0 <= a < b < s0.len() ==> s0[a].0 != s0[b].0,
    ensures
        map_of(s1) == map_of(s0).insert(s1[i].0, s1[i].1),
    decreases s0.len(),
{
    let n = s0.len();
    if i == n - 1 {
        assert(s1.drop_last() =~= s0.drop_last());
        assert(map_of(s0).insert(s1[i].0, s1[i].1) =~= map_of(s0.drop_last()).insert(s1[i].0, s1[i].1));
    } else {
        assert forall|a: int, b: int| 0 <= a < b < s0.drop_last().len() implies s0.drop_last()[a].0 != s0.drop_last()[b].0 by {
            assert(s0.drop_last()[a] == s0[a] && s0.drop_last()[b] == s0[b]);
        }
        lemma_map_of_ext(s0.drop_last(), s1.drop_last(), i);
        assert(s1.last() == s0.last());
        assert(s0[i].0 != s0.last().0);
        assert(map_of(s1) =~= map_of(s0).insert(s1[i].0, s1[i].1));
    }
}

fn decode_bytes(b: &[u8]) -> (r: String)
    ensures
        r@ == decoded(b@),
{
    let out = pct_decode_bytes(b);
    from_utf8_lossy(out.as_slice())
}

pub open spec fn byte_views(v: Seq<Vec<u8>>) -> Seq<Seq<u8>> {
    v.map_values(|w: Vec<u8>| w@)
}

fn split_bytes_exec(v: &[u8], sep: u8) -> (r: Vec<Vec<u8>>)
    ensures
        byte_views(r@) == split_bytes(v@, sep),
{
    let mut out: Vec<Vec<u8>> = Vec::new();
    let mut cur: Vec<u8> = Vec::new();
    let mut i: usize = 0;
    assert(v@.skip(0) =~= v@);
    assert(byte_views(out@) =~= Seq::<Seq<u8>>::empty());
    while i < v.len()
        invariant
            i <= v@.len(),
            byte_views(out@) + split_bytes_acc(v@.skip(i as int), sep, cur@) == split_bytes(v@, sep),
        decreases v@.len() - i,
    {
        let ghost rest = v@.skip(i as int);
        assert(rest.drop_first() =~= v@.skip(i + 1));
        if v[i] == sep {
            let ghost before = byte_views(out@);
            out.push(cur);
            assert(byte_views(out@) =~= before + seq![cur@]);
            cur = Vec::new();
            assert(cur@ =~= Seq::<u8>::empty());
            assert(byte_views(out@) + split_bytes_acc(v@.skip(i + 1), sep, cur@) =~= split_bytes(v@, sep));
        } else {
            cur.push(v[i]);
        }
        i = i + 1;
    }
    assert(v@.skip(i as int).len() == 0);
    let ghost before = byte_views(out@);
    out.push(cur);
    assert(byte_views(out@) =~= before + seq![cur@]);
    out
}

proof fn lemma_find_byte(s: Seq<u8>, c: u8, i: int)
    requires
        0 <= i <= s.len(),
        forall|k: int| 0 <= k < i ==> s[k] != c,
    ensures
        i < s.len() && s[i] == c ==> find_byte(s, c) == Some(i),
        i == s.len() ==> find_byte(s, c) is None,
    decreases s.len(),
{
    if s.len() > 0 && i > 0 {
        assert forall|k: int| 0 <= k < i - 1 implies s.drop_first()[k] != c by {
            assert(s.drop_first()[k] == s[k + 1]);
        }
        lemma_find_byte(s.drop_first(), c, i - 1);
    }
}

fn key_value_exec(p: &[u8]) -> (r: (Vec<u8>, Vec<u8>))
    ensures
        (r.0@, r.1@) == key_value(p@),
{
    let mut i: usize = 0;
    while i < p.len()
        invariant
            i <= p@.len(),
            forall|k: int| 0 <= k < i ==> p@[k] != 0x3d,
        decreases p@.len() - i,
    {
        if p[i] == 0x3d {
            proof {
                lemma_find_byte(p@, 0x3d, i as int);
            }
            let n = p.len();
            let a = byte_range(p, 0, i);
            let c = byte_range(p, i + 1, n);
            assert(a@ =~= p@.take(i as int));
            assert(c@ =~= p@.skip(i + 1));
            return (a, c);
        }
        i = i + 1;
    }
    proof {
        lemma_find_byte(p@, 0x3d, i as int);
    }
    let n = p.len();
    let a = byte_range(p, 0, n);
    assert(a@ =~= p@);
    (a, Vec::new())
}

fn byte_range(v: &[u8], lo: usize, hi: usize) -> (r: Vec<u8>)
    requires
        lo <= hi <= v@.len(),
    ensures
        r@ == v@.subrange(lo as int, hi as int),
{
    let mut r: Vec<u8> = Vec::new();
    let mut k = lo;
    while k < hi
        invariant
            lo <= k <= hi <= v@.len(),
            r@ == v@.subrange(lo as int, k as int),
        decreases hi - k,
    {
        r.push(v[k]);
        k = k + 1;
    }
    r
}

pub open spec fn string_pairs_view(v: Seq<(String, String)>) -> Seq<(Seq<char>, Seq<char>)> {
    v.map_values(|p: (String, String)| (p.0@, p.1@))
}

/// The decoded `(key, value)` pairs of a query string in order, empty
/// pieces skipped (a piece without `=` has an empty value).
pub fn query_pair_list(query: &str) -> (r: Vec<(String, String)>)
    ensures
        string_pairs_view(r@) == query_pairs(vstd::utf8::encode_utf8(query@)),
{
    let b = query.as_bytes();
    let pieces = split_bytes_exec(b, 0x26);
    let ghost ps = byte_views(pieces@);
    let mut out: Vec<(String, String)> = Vec::new();
    let mut t: usize = 0;
    assert(string_pairs_view(out@) =~= Seq::<(Seq<char>, Seq<char>)>::empty());
    while t < pieces.len()
        invariant
            ps == byte_views(pieces@),
            ps.len() == pieces@.len(),
            t <= pieces@.len(),
            string_pairs_view(out@) == query_pairs_upto(ps, t as int),
        decreases pieces@.len() - t,
    {
        assert(ps[t as int] == pieces@[t as int]@);
        let piece = pieces[t].as_slice();
        if piece.len() > 0 {
            let (k, v) = key_value_exec(piece);
            let ks = decode_bytes(k.as_slice());
            let vs = decode_bytes(v.as_slice());
            let ghost before = string_pairs_view(out@);
            let ghost pv = (ks@, vs@);
            out.push((ks, vs));
            assert(string_pairs_view(out@) =~= before.push(pv));
        }
        t = t + 1;
    }
    out
}

/// Parse an `application/x-www-form-urlencoded`-style query string into a
/// map; empty pieces are skipped and a later key replaces an earlier one.
pub fn parse_query(query: &str) -> (m: QueryMap)
    ensures
        m.wf(),
        m@ == map_of(query_pairs(vstd::utf8::encode_utf8(query@))),
{
    let b = query.as_bytes();
    let pieces = split_bytes_exec(b, 0x26);
    let ghost ps = byte_views(pieces@);
    let mut m = QueryMap::new();
    let mut t: usize = 0;
    while t < pieces.len()
        invariant
            ps == byte_views(pieces@),
            ps.len() == pieces@.len(),
            t <= pieces@.len(),
            m.wf(),
            m@ == map_of(query_pairs_upto(ps, t as int)),
        decreases pieces@.len() - t,
    {
        assert(ps[t as int] == pieces@[t as int]@);
        let piece = pieces[t].as_slice();
        if piece.len() > 0 {
            let (k, v) = key_value_exec(piece);
            let ks = decode_bytes(k.as_slice());
            let vs = decode_bytes(v.as_slice());
            m.insert(ks, vs);
            let ghost prev = query_pairs_upto(ps, t as int);
            assert(query_pairs_upto(ps, t + 1) == prev.push((ks@, vs@)));
            assert(prev.push((ks@, vs@)).drop_last() =~= prev);
        }
        t = t + 1;
    }
    m
}

pub open spec fn is_url_delim(c: char) -> bool {
    c == '/' || c == '?' || c == '#'
}

pub open spec fn sep_at(u: Seq<char>, k: int) -> bool {
    u[k] == ':' && u[k + 1] == '/' && u[k + 2] == '/'
}

/// Position of the first `://`.
pub open spec fn scheme_sep(u: Seq<char>) -> Option<int>
    decreases u.len(),
{
    if u.len() < 3 {
        None
    } else if u[0] == ':' && u[1] == '/' && u[2] == '/' {
        Some(0)
    } else {
        match scheme_sep(u.drop_first()) {
            Some(i) => Some(i + 1),
            None => None,
        }
    }
}

proof fn lemma_scheme_sep(u: Seq<char>, i: int)
    requires
        0 <= i <= u.len(),
        forall|k: int| 0 <= k < i && k + 3 <= u.len() ==> !#[trigger] sep_at(u, k),
    ensures
        i + 3 <= u.len() && sep_at(u, i) ==> scheme_sep(u) == Some(i),
        i + 3 > u.len() ==> scheme_sep(u) is None,
    decreases u.len(),
{
    if u.len() >= 3 && i > 0 {
        let d = u.drop_first();
        assert(!sep_at(u, 0));
        assert forall|k: int| 0 <= k < i - 1 && k + 3 <= d.len() implies !#[trigger] sep_at(d, k) by {
            assert(d[k] == u[k + 1] && d[k + 1] == u[k + 2] && d[k + 2] == u[k + 3]);
            assert(!sep_at(u, k + 1));
        }
        lemma_scheme_sep(d, i - 1);
        if i + 3 <= u.len() && sep_at(u, i) {
            assert(d[i - 1] == u[i] && d[i] == u[i + 1] && d[i + 1] == u[i + 2]);
            assert(sep_at(d, i - 1));
        }
    }
}

/// An `http` or `https` URL (scheme in any case) with a non-empty host.
pub open spec fn valid_api_url(u: Seq<char>) -> bool {
    match scheme_sep(u) {
        Some(i) => {
            let scheme = lower(u.take(i));
            let rest = u.skip(i + 3);
            (scheme == seq!['h', 't', 't', 'p'] || scheme == seq!['h', 't', 't', 'p', 's']) && rest.len() > 0
                && !is_url_delim(rest[0])
        },
        None => false,
    }
}

/// Whether a URL is an `http`/`https` URL with a host.
pub fn is_valid_http_url(url: &str) -> (r: bool)
    ensures
        r == valid_api_url(url@),
{
    let u = str_chars(url);
    let n = u.len();
    if n < 3 {
        proof {
            lemma_scheme_sep(u@, 0);
        }
        return false;
    }
    let mut i: usize = 0;
    while i < n - 2
        invariant
            u@ == url@,
            n == u@.len(),
            n >= 3,
            i + 2 <= n,
            forall|k: int| 0 <= k < i && k + 3 <= u@.len() ==> !#[trigger] sep_at(u@, k),
        decreases n - i,
    {
        if u[i] == ':' && u[i + 1] == '/' && u[i + 2] == '/' {
            assert(sep_at(u@, i as int));
            proof {
                lemma_scheme_sep(u@, i as int);
            }
            let scheme = subvec(u.as_slice(), 0, i);
            assert(scheme@ =~= u@.take(i as int));
            let low = lower_vec(scheme.as_slice());
            let http: &[char] = &['h', 't', 't', 'p'];
            let https: &[char] = &['h', 't', 't', 'p', 's'];
            assert(http@ == seq!['h', 't', 't', 'p']);
            assert(https@ == seq!['h', 't', 't', 'p', 's']);
            let ok_scheme = eq_chars(low.as_slice(), http) || eq_chars(low.as_slice(), https);
            let host_ok = i + 3 < n && !(u[i + 3] == '/' || u[i + 3] == '?' || u[i + 3] == '#');
            assert(u@.skip(i + 3).len() == n - (i + 3));
            if i + 3 < n {
                assert(u@.skip(i + 3)[0] == u@[i + 3]);
            }
            return ok_scheme && host_ok;
        }
        assert(!sep_at(u@, i as int));
        i = i + 1;
    }
    proof {
        lemma_scheme_sep(u@, i as int);
    }
    false
}

/// Parse an optional RFC 3339 parameter to epoch milliseconds: `Ok(None)`
/// when absent or empty, `Err(())` when present but unparseable.
pub fn parse_instant_ms(value: Option<&String>) -> (r: Result<Option<i64>, ()>)
    ensures
        match value {
            None => r == Ok::<Option<i64>, ()>(None),
            Some(s) => if s@.len() == 0 {
                r == Ok::<Option<i64>, ()>(None)
            } else {
                match rfc3339_instant(trim(s@)) {
                    Some(i) => r == Ok::<Option<i64>, ()>(Some(i.millis() as i64)),
                    None => r == Err::<Option<i64>, ()>(()),
                }
            },
        },
{
    match value {
        None => Ok(None),
        Some(s) => {
            if s.as_str().is_empty() {
                return Ok(None);
            }
            let v = str_chars(s.as_str());
            let t = string_of(trim_vec(v.as_slice()).as_slice());
            match parse_rfc3339_utc(t.as_str()) {
                Some(i) => Ok(Some(to_millis(i))),
                None => Err(()),
            }
        },
    }
}

} // verus!
