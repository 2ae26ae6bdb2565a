//! Character-sequence helpers shared by the date, text and feed modules.
//!
//! Text is handled as `Vec<char>`; every helper is specified over `Seq<char>`
//! so that callers can state their own contracts in the same terms.
use vstd::prelude::*;

verus! {

/// Unicode `White_Space`, the set that `char::is_whitespace` and
/// `str::trim` use.
pub open spec fn is_ws(c: char) -> bool {
    ||| ('\u{9}' <= c && c <= '\u{d}')
    ||| c == ' '
    ||| c == '\u{85}'
    ||| c == '\u{a0}'
    ||| c == '\u{1680}'
    ||| ('\u{2000}' <= c && c <= '\u{200a}')
    ||| c == '\u{2028}'
    ||| c == '\u{2029}'
    ||| c == '\u{202f}'
    ||| c == '\u{205f}'
    ||| c == '\u{3000}'
}

pub fn char_is_ws(c: char) -> (r: bool)
    ensures
        r == is_ws(c),
{
    ('\u{9}' <= c && c <= '\u{d}') || c == ' ' || c == '\u{85}' || c == '\u{a0}' || c
        == '\u{1680}' || ('\u{2000}' <= c && c <= '\u{200a}') || c == '\u{2028}' || c
        == '\u{2029}' || c == '\u{202f}' || c == '\u{205f}' || c == '\u{3000}'
}

/// Number of leading whitespace characters.
pub open spec fn lead_ws(s: Seq<char>) -> nat
    decreases s.len(),
{
    if s.len() > 0 && is_ws(s[0]) {
        1 + lead_ws(s.drop_first())
    } else {
        0
    }
}

/// Number of trailing whitespace characters.
pub open spec fn trail_ws(s: Seq<char>) -> nat
    decreases s.len(),
{
    if s.len() > 0 && is_ws(s.last()) {
        1 + trail_ws(s.drop_last())
    } else {
        0
    }
}

pub open spec fn trim_start(s: Seq<char>) -> Seq<char> {
    s.skip(lead_ws(s) as int)
}

pub open spec fn trim_end(s: Seq<char>) -> Seq<char> {
    s.take(s.len() - trail_ws(s))
}

/// What `str::trim` returns.
pub open spec fn trim(s: Seq<char>) -> Seq<char> {
    trim_end(trim_start(s))
}

pub proof fn lemma_lead_ws_bound(s: Seq<char>)
    ensures
        lead_ws(s) <= s.len(),
    decreases s.len(),
{
    if s.len() > 0 && is_ws(s[0]) {
        lemma_lead_ws_bound(s.drop_first());
    }
}

pub proof fn lemma_trail_ws_bound(s: Seq<char>)
    ensures
        trail_ws(s) <= s.len(),
    decreases s.len(),
{
    if s.len() > 0 && is_ws(s.last()) {
        lemma_trail_ws_bound(s.drop_last());
    }
}

/// A sequence is blank when it holds only whitespace.
pub open spec fn is_blank(s: Seq<char>) -> bool {
    forall|i: int| 0 <= i < s.len() ==> is_ws(#[trigger] s[i])
}

pub proof fn lemma_blank_iff_trim_empty(s: Seq<char>)
    ensures
        is_blank(s) <==> trim(s).len() == 0,
        lead_ws(s) == s.len() <==> is_blank(s),
    decreases s.len(),
{
    lemma_lead_ws_bound(s);
    lemma_trail_ws_bound(trim_start(s));
    if s.len() > 0 && is_ws(s[0]) {
        lemma_blank_iff_trim_empty(s.drop_first());
        assert(trim_start(s) =~= trim_start(s.drop_first()));
        if is_blank(s.drop_first()) {
            assert forall|i: int| 0 <= i < s.len() implies is_ws(#[trigger] s[i]) by {
                if i > 0 {
                    assert(s[i] == s.drop_first()[i - 1]);
                }
            }
        }
        if is_blank(s) {
            assert forall|i: int| 0 <= i < s.drop_first().len() implies is_ws(
                #[trigger] s.drop_first()[i],
            ) by {
                assert(s.drop_first()[i] == s[i + 1]);
            }
        }
    } else if s.len() > 0 {
        assert(!is_blank(s));
        assert(trim_start(s) =~= s);
        lemma_trail_ws_bound(s);
        if trail_ws(s) == s.len() {
            lemma_trail_all(s);
        }
    }
}

proof fn lemma_trail_all(s: Seq<char>)
    requires
        trail_ws(s) == s.len(),
    ensures
        is_blank(s),
    decreases s.len(),
{
    if s.len() > 0 {
        lemma_trail_ws_bound(s.drop_last());
        lemma_trail_all(s.drop_last());
        assert forall|i: int| 0 <= i < s.len() implies is_ws(#[trigger] s[i]) by {
            if i < s.len() - 1 {
                assert(s[i] == s.drop_last()[i]);
            }
        }
    }
}

/// The leading run of whitespace stops at a character that is not one.
proof fn lemma_lead_ws_stops(s: Seq<char>)
    ensures
        lead_ws(s) < s.len() ==> !is_ws(s[lead_ws(s) as int]),
    decreases s.len(),
{
    if s.len() > 0 && is_ws(s[0]) {
        lemma_lead_ws_stops(s.drop_first());
        lemma_lead_ws_bound(s.drop_first());
        if lead_ws(s) < s.len() {
            assert(s[lead_ws(s) as int] == s.drop_first()[lead_ws(s.drop_first()) as int]);
        }
    }
}

/// The trailing run of whitespace stops at a character that is not one.
proof fn lemma_trail_ws_stops(s: Seq<char>)
    ensures
        trail_ws(s) < s.len() ==> !is_ws(s[s.len() - 1 - trail_ws(s)]),
    decreases s.len(),
{
    if s.len() > 0 && is_ws(s.last()) {
        lemma_trail_ws_stops(s.drop_last());
        lemma_trail_ws_bound(s.drop_last());
        if trail_ws(s) < s.len() {
            assert(s[s.len() - 1 - trail_ws(s)] == s.drop_last()[s.drop_last().len() - 1 - trail_ws(
                s.drop_last(),
            )]);
        }
    }
}

/// Trimming twice trims no more than trimming once.
pub proof fn lemma_trim_idempotent(s: Seq<char>)
    ensures
        trim(trim(s)) == trim(s),
{
    lemma_lead_ws_bound(s);
    lemma_blank_iff_trim_empty(s);
    let a = trim_start(s);
    let t = trim(s);
    if is_blank(s) {
        assert(t.len() == 0);
        assert(trim_start(t) =~= t);
        assert(trim(t) =~= t);
    } else {
        lemma_lead_ws_stops(s);
        assert(a[0] == s[lead_ws(s) as int]);
        lemma_trail_ws_bound(a);
        if trail_ws(a) == a.len() {
            lemma_trail_all(a);
            assert(is_ws(a[0]));
        }
        lemma_trail_ws_stops(a);
        assert(t[0] == a[0]);
        assert(t[t.len() - 1] == a[a.len() - 1 - trail_ws(a)]);
        assert(lead_ws(t) == 0);
        assert(trim_start(t) =~= t);
        assert(trail_ws(t) == 0);
        assert(trim_end(t) =~= t);
    }
}

pub fn lead_ws_exec(v: &[char]) -> (r: usize)
    ensures
        r == lead_ws(v@),
        r <= v@.len(),
{
    let mut i: usize = 0;
    assert(v@.skip(0) =~= v@);
    while i < v.len() && char_is_ws(v[i])
        invariant
            0 <= i <= v@.len(),
            lead_ws(v@) == i + lead_ws(v@.skip(i as int)),
        decreases v@.len() - i,
    {
        assert(v@.skip(i as int).drop_first() =~= v@.skip(i + 1));
        i = i + 1;
    }
    if i == v.len() {
        assert(v@.skip(i as int).len() == 0);
    }
    i
}

pub fn trail_ws_exec(v: &[char]) -> (r: usize)
    ensures
        r == trail_ws(v@),
        r <= v@.len(),
{
    let mut j: usize = v.len();
    assert(v@.take(j as int) =~= v@);
    while j > 0 && char_is_ws(v[j - 1])
        invariant
            0 <= j <= v@.len(),
            trail_ws(v@) == (v@.len() - j) + trail_ws(v@.take(j as int)),
        decreases j,
    {
        assert(v@.take(j as int).drop_last() =~= v@.take(j - 1));
        j = j - 1;
    }
    v.len() - j
}

pub fn subvec(v: &[char], lo: usize, hi: usize) -> (r: Vec<char>)
    requires
        lo <= hi <= v@.len(),
    ensures
        r@ == v@.subrange(lo as int, hi as int),
{
    let mut r: Vec<char> = Vec::new();
    let mut k = lo;
    while k < hi
        invariant
            lo <= k <= hi <= v@.len(),
            r@ == v@.subrange(lo as int, k as int),
        decreases hi - k,
    {
        r.push(v[k]);
        k = k + 1;
    }
    r
}

/// `str::trim` on a character vector.
pub fn trim_vec(v: &[char]) -> (r: Vec<char>)
    ensures
        r@ == trim(v@),
{
    let i = lead_ws_exec(v);
    let s = subvec(v, i, v.len());
    assert(s@ =~= trim_start(v@));
    let t = trail_ws_exec(s.as_slice());
    let r = subvec(s.as_slice(), 0, s.len() - t);
    assert(r@ =~= trim(v@));
    r
}

/// Whether a character vector is blank (`s.trim().is_empty()`).
pub fn is_blank_vec(v: &[char]) -> (r: bool)
    ensures
        r == is_blank(v@),
        r == (trim(v@).len() == 0),
{
    proof {
        lemma_blank_iff_trim_empty(v@);
    }
    lead_ws_exec(v) == v.len()
}

pub open spec fn ascii_lower(c: char) -> char {
    if 'A' <= c && c <= 'Z' {
        ((c as u32) + 32) as char
    } else {
        c
    }
}

pub open spec fn ascii_upper(c: char) -> char {
    if 'a' <= c && c <= 'z' {
        ((c as u32) - 32) as char
    } else {
        c
    }
}

/// `str::to_ascii_lowercase`.
pub open spec fn lower(s: Seq<char>) -> Seq<char> {
    s.map_values(|c: char| ascii_lower(c))
}

/// `str::to_ascii_uppercase`.
pub open spec fn upper(s: Seq<char>) -> Seq<char> {
    s.map_values(|c: char| ascii_upper(c))
}

pub fn lower_char(c: char) -> (r: char)
    ensures
        r == ascii_lower(c),
{
    if 'A' <= c && c <= 'Z' {
        let u = (c as u32) + 32;
        proof {
            assert(u == ascii_lower(c) as u32);
        }
        char_from_ascii(u)
    } else {
        c
    }
}

pub fn upper_char(c: char) -> (r: char)
    ensures
        r == ascii_upper(c),
{
    if 'a' <= c && c <= 'z' {
        let u = (c as u32) - 32;
        char_from_ascii(u)
    } else {
        c
    }
}

/// The character with an ASCII code point.
fn char_from_ascii(u: u32) -> (r: char)
    requires
        u < 128,
    ensures
        r == u as char,
{
    let b: u8 = u as u8;
    b as char
}

pub fn lower_vec(v: &[char]) -> (r: Vec<char>)
    ensures
        r@ == lower(v@),
{
    let mut r: Vec<char> = Vec::new();
    let mut k: usize = 0;
    while k < v.len()
        invariant
            k <= v@.len(),
            r@ =~= lower(v@.take(k as int)),
        decreases v@.len() - k,
    {
        r.push(lower_char(v[k]));
        assert(v@.take(k + 1) =~= v@.take(k as int).push(v@[k as int]));
        k = k + 1;
    }
    assert(v@.take(k as int) =~= v@);
    r
}

pub fn upper_vec(v: &[char]) -> (r: Vec<char>)
    ensures
        r@ == upper(v@),
{
    let mut r: Vec<char> = Vec::new();
    let mut k: usize = 0;
    while k < v.len()
        invariant
            k <= v@.len(),
            r@ =~= upper(v@.take(k as int)),
        decreases v@.len() - k,
    {
        r.push(upper_char(v[k]));
        assert(v@.take(k + 1) =~= v@.take(k as int).push(v@[k as int]));
        k = k + 1;
    }
    assert(v@.take(k as int) =~= v@);
    r
}

/// Element-wise equality of two character slices.
pub fn eq_chars(a: &[char], b: &[char]) -> (r: bool)
    ensures
        r == (a@ == b@),
{
    if a.len() != b.len() {
        return false;
    }
    let mut k: usize = 0;
    while k < a.len()
        invariant
            a@.len() == b@.len(),
            k <= a@.len(),
            forall|i: int| 0 <= i < k ==> a@[i] == b@[i],
        decreases a@.len() - k,
    {
        if a[k] != b[k] {
            return false;
        }
        k = k + 1;
    }
    assert(a@ =~= b@);
    true
}

/// Tokens that `str::split_whitespace` yields, built left to right with the
/// word in progress carried along.
pub open spec fn toks_acc(s: Seq<char>, cur: Seq<char>) -> Seq<Seq<char>>
    decreases s.len(),
{
    if s.len() == 0 {
        if cur.len() > 0 {
            seq![cur]
        } else {
            Seq::empty()
        }
    } else if is_ws(s[0]) {
        (if cur.len() > 0 {
            seq![cur]
        } else {
            Seq::<Seq<char>>::empty()
        }) + toks_acc(s.drop_first(), Seq::empty())
    } else {
        toks_acc(s.drop_first(), cur.push(s[0]))
    }
}

/// What `str::split_whitespace` yields.
pub open spec fn ws_tokens(s: Seq<char>) -> Seq<Seq<char>> {
    toks_acc(s, Seq::empty())
}

pub open spec fn views(v: Seq<Vec<char>>) -> Seq<Seq<char>> {
    v.map_values(|w: Vec<char>| w@)
}

/// `str::split_whitespace` on a character slice.
pub fn split_ws(v: &[char]) -> (r: Vec<Vec<char>>)
    ensures
        views(r@) == ws_tokens(v@),
{
    let mut out: Vec<Vec<char>> = Vec::new();
    let mut cur: Vec<char> = Vec::new();
    let mut i: usize = 0;
    assert(v@.skip(0) =~= v@);
    assert(views(out@) =~= Seq::<Seq<char>>::empty());
    while i < v.len()
        invariant
            i <= v@.len(),
            views(out@) + toks_acc(v@.skip(i as int), cur@) == ws_tokens(v@),
        decreases v@.len() - i,
    {
        let c = v[i];
        let ghost rest = v@.skip(i as int);
        assert(rest.drop_first() =~= v@.skip(i + 1));
        if char_is_ws(c) {
            if cur.len() > 0 {
                let ghost before = views(out@);
                out.push(cur);
                assert(views(out@) =~= before + seq![cur@]);
                cur = Vec::new();
            } else {
                assert(cur@ =~= Seq::<char>::empty());
            }
            assert(views(out@) + toks_acc(v@.skip(i + 1), cur@) =~= ws_tokens(v@));
        } else {
            cur.push(c);
        }
        i = i + 1;
    }
    assert(v@.skip(i as int).len() == 0);
    if cur.len() > 0 {
        let ghost before = views(out@);
        out.push(cur);
        assert(views(out@) =~= before + seq![cur@]);
    } else {
        assert(views(out@) + Seq::<Seq<char>>::empty() =~= views(out@));
    }
    out
}

/// Index of the first occurrence of `c`, if any.
pub open spec fn find_char(s: Seq<char>, c: char) -> Option<int>
    decreases s.len(),
{
    if s.len() == 0 {
        None
    } else if s[0] == c {
        Some(0)
    } else {
        match find_char(s.drop_first(), c) {
            Some(i) => Some(i + 1),
            None => None,
        }
    }
}

pub proof fn lemma_find_char(s: Seq<char>, c: char, i: int)
    requires
        0 <= i <= s.len(),
        forall|k: int| 0 <= k < i ==> s[k] != c,
    ensures
        i < s.len() && s[i] == c ==> find_char(s, c) == Some(i),
        i == s.len() ==> find_char(s, c) is None,
    decreases s.len(),
{
    if s.len() > 0 && i > 0 {
        assert forall|k: int| 0 <= k < i - 1 implies s.drop_first()[k] != c by {
            assert(s.drop_first()[k] == s[k + 1]);
        }
        lemma_find_char(s.drop_first(), c, i - 1);
    }
}

pub proof fn lemma_find_char_some(s: Seq<char>, c: char)
    ensures
        find_char(s, c) matches Some(i) ==> 0 <= i < s.len() && s[i] == c && forall|k: int|
            0 <= k < i ==> s[k] != c,
        find_char(s, c) is None ==> forall|k: int| 0 <= k < s.len() ==> s[k] != c,
    decreases s.len(),
{
    if s.len() > 0 && s[0] != c {
        lemma_find_char_some(s.drop_first(), c);
        assert forall|k: int| 1 <= k < s.len() implies s[k] == s.drop_first()[k - 1] by {}
    }
}

/// Position of the first `c` in `v`.
pub fn find_char_exec(v: &[char], c: char) -> (r: Option<usize>)
    ensures
        r matches Some(i) ==> find_char(v@, c) == Some(i as int),
        r is None ==> find_char(v@, c) is None,
        r matches Some(i) ==> i < v@.len(),
{
    let mut i: usize = 0;
    while i < v.len()
        invariant
            i <= v@.len(),
            forall|k: int| 0 <= k < i ==> v@[k] != c,
        decreases v@.len() - i,
    {
        if v[i] == c {
            proof {
                lemma_find_char(v@, c, i as int);
            }
            return Some(i);
        }
        i = i + 1;
    }
    proof {
        lemma_find_char(v@, c, i as int);
    }
    None
}

/// Whether `q` occurs in `t` as a contiguous run.
pub open spec fn occurs_at(t: Seq<char>, q: Seq<char>, i: int) -> bool {
    0 <= i && i + q.len() <= t.len() && t.subrange(i, i + q.len()) == q
}

pub open spec fn contains_seq(t: Seq<char>, q: Seq<char>) -> bool {
    exists|i: int| occurs_at(t, q, i)
}

fn occurs_at_exec(t: &[char], q: &[char], i: usize) -> (r: bool)
    requires
        i + q@.len() <= t@.len(),
    ensures
        r == occurs_at(t@, q@, i as int),
{
    let mut k: usize = 0;
    let n = t.len();
    while k < q.len()
        invariant
            n == t@.len(),
            i + q@.len() <= t@.len(),
            k <= q@.len(),
            forall|j: int| 0 <= j < k ==> t@[i + j] == q@[j],
        decreases q@.len() - k,
    {
        if t[i + k] != q[k] {
            assert(t@.subrange(i as int, i + q@.len())[k as int] != q@[k as int]);
            return false;
        }
        k = k + 1;
    }
    assert(t@.subrange(i as int, i + q@.len()) =~= q@);
    true
}

/// Substring search: does `q` occur in `t`?
pub fn contains_exec(t: &[char], q: &[char]) -> (r: bool)
    ensures
        r == contains_seq(t@, q@),
{
    if q.len() > t.len() {
        assert forall|i: int| !occurs_at(t@, q@, i) by {}
        return false;
    }
    let mut i: usize = 0;
    let last = t.len() - q.len();
    loop
        invariant
            q@.len() <= t@.len(),
            last == t@.len() - q@.len(),
            i <= last,
            forall|j: int| 0 <= j < i ==> !occurs_at(t@, q@, j),
        decreases last - i,
    {
        if occurs_at_exec(t, q, i) {
            return true;
        }
        if i == last {
            assert forall|j: int| !occurs_at(t@, q@, j) by {}
            return false;
        }
        i = i + 1;
    }
}

/// Whether `p` is a prefix of `s`.
pub open spec fn has_prefix(s: Seq<char>, p: Seq<char>) -> bool {
    p.len() <= s.len() && s.take(p.len() as int) == p
}

pub fn starts_with_exec(s: &[char], p: &[char]) -> (r: bool)
    ensures
        r == has_prefix(s@, p@),
{
    if p.len() > s.len() {
        return false;
    }
    let r = occurs_at_exec(s, p, 0);
    assert(s@.subrange(0, p@.len() as int) =~= s@.take(p@.len() as int));
    r
}

pub open spec fn is_digit(c: char) -> bool {
    '0' <= c && c <= '9'
}

pub open spec fn all_digits(s: Seq<char>) -> bool {
    forall|i: int| 0 <= i < s.len() ==> is_digit(#[trigger] s[i])
}

pub open spec fn digit_val(c: char) -> int {
    c as int - '0' as int
}

/// Decimal value of a digit string.
pub open spec fn dec_val(s: Seq<char>) -> int
    decreases s.len(),
{
    if s.len() == 0 {
        0
    } else {
        dec_val(s.drop_last()) * 10 + digit_val(s.last())
    }
}

pub proof fn lemma_dec_val_nonneg(s: Seq<char>)
    requires
        all_digits(s),
    ensures
        dec_val(s) >= 0,
    decreases s.len(),
{
    if s.len() > 0 {
        assert(all_digits(s.drop_last())) by {
            assert forall|i: int| 0 <= i < s.drop_last().len() implies is_digit(
                #[trigger] s.drop_last()[i],
            ) by {
                assert(s.drop_last()[i] == s[i]);
            }
        }
        lemma_dec_val_nonneg(s.drop_last());
        assert(is_digit(s[s.len() - 1]));
    }
}

pub fn all_digits_exec(v: &[char]) -> (r: bool)
    ensures
        r == all_digits(v@),
{
    let mut k: usize = 0;
    while k < v.len()
        invariant
            k <= v@.len(),
            forall|i: int| 0 <= i < k ==> is_digit(#[trigger] v@[i]),
        decreases v@.len() - k,
    {
        if !(v[k] >= '0' && v[k] <= '9') {
            return false;
        }
        k = k + 1;
    }
    true
}

/// The digits after an optional leading sign, as `FromStr` for integers reads them.
pub open spec fn unsigned_body(s: Seq<char>) -> Seq<char> {
    if s.len() > 0 && s[0] == '+' {
        s.drop_first()
    } else {
        s
    }
}

/// `str::parse::<u32>`.
pub open spec fn parse_u32(s: Seq<char>) -> Option<u32> {
    let d = unsigned_body(s);
    if d.len() > 0 && all_digits(d) && dec_val(d) <= u32::MAX {
        Some(dec_val(d) as u32)
    } else {
        None
    }
}

/// `str::parse::<i32>`.
pub open spec fn parse_i32(s: Seq<char>) -> Option<i32> {
    if s.len() > 0 && s[0] == '-' {
        let d = s.drop_first();
        if d.len() > 0 && all_digits(d) && dec_val(d) <= 0x8000_0000 {
            Some((-dec_val(d)) as i32)
        } else {
            None
        }
    } else {
        let d = unsigned_body(s);
        if d.len() > 0 && all_digits(d) && dec_val(d) <= i32::MAX {
            Some(dec_val(d) as i32)
        } else {
            None
        }
    }
}

/// `str::parse::<i64>`.
pub open spec fn parse_i64(s: Seq<char>) -> Option<i64> {
    if s.len() > 0 && s[0] == '-' {
        let d = s.drop_first();
        if d.len() > 0 && all_digits(d) && dec_val(d) <= 0x8000_0000_0000_0000 {
            Some((-dec_val(d)) as i64)
        } else {
            None
        }
    } else {
        let d = unsigned_body(s);
        if d.len() > 0 && all_digits(d) && dec_val(d) <= i64::MAX {
            Some(dec_val(d) as i64)
        } else {
            None
        }
    }
}

/// Value of a nonempty digit string when it is at most `limit`.
fn digits_up_to(v: &[char], lo: usize, limit: u64) -> (r: Option<u64>)
    requires
        lo <= v@.len(),
        limit <= 0x8000_0000_0000_0000,
    ensures
        r matches Some(x) ==> {
            let d = v@.skip(lo as int);
            &&& d.len() > 0
            &&& all_digits(d)
            &&& dec_val(d) == x
            &&& x <= limit
        },
        r is None ==> {
            let d = v@.skip(lo as int);
            !(d.len() > 0 && all_digits(d) && dec_val(d) <= limit)
        },
{
    let ghost d = v@.skip(lo as int);
    if lo == v.len() {
        return None;
    }
    let mut acc: u64 = 0;
    let mut k: usize = lo;
    assert(d.take(0) =~= Seq::<char>::empty());
    while k < v.len()
        invariant
            lo < v@.len(),
            lo <= k <= v@.len(),
            d == v@.skip(lo as int),
            limit <= 0x8000_0000_0000_0000,
            all_digits(d.take(k - lo)),
            acc == dec_val(d.take(k - lo)),
            acc <= limit,
        decreases v@.len() - k,
    {
        let c = v[k];
        if !(c >= '0' && c <= '9') {
            assert(!is_digit(d[k - lo]));
            return None;
        }
        let dv = (c as u32 - '0' as u32) as u64;
        assert(d.take(k - lo + 1).drop_last() =~= d.take(k - lo));
        assert(d.take(k - lo + 1).last() == c);
        assert(all_digits(d.take(k - lo + 1))) by {
            assert forall|i: int| 0 <= i < d.take(k - lo + 1).len() implies is_digit(
                #[trigger] d.take(k - lo + 1)[i],
            ) by {
                if i < k - lo {
                    assert(d.take(k - lo + 1)[i] == d.take(k - lo)[i]);
                }
            }
        }
        if acc > limit / 10 || acc * 10 + dv > limit {
            proof {
                lemma_dec_grows(d, k - lo + 1);
            }
            return None;
        }
        acc = acc * 10 + dv;
        k = k + 1;
    }
    assert(d.take(k - lo) =~= d);
    Some(acc)
}

/// Once a digit prefix exceeds a bound, every longer prefix does too.
proof fn lemma_dec_grows(d: Seq<char>, n: int)
    requires
        0 < n <= d.len(),
        all_digits(d.take(n)),
    ensures
        forall|m: int| n <= m <= d.len() && all_digits(d.take(m)) ==> dec_val(d.take(m)) >= dec_val(
            d.take(n),
        ),
    decreases d.len() - n,
{
    assert forall|m: int| n <= m <= d.len() && all_digits(d.take(m)) implies dec_val(d.take(m))
        >= dec_val(d.take(n)) by {
        lemma_dec_prefix_mono(d, n, m);
    }
}

proof fn lemma_dec_prefix_mono(d: Seq<char>, n: int, m: int)
    requires
        0 <= n <= m <= d.len(),
        all_digits(d.take(m)),
    ensures
        dec_val(d.take(m)) >= dec_val(d.take(n)),
    decreases m - n,
{
    if m > n {
        assert(d.take(m).drop_last() =~= d.take(m - 1));
        assert(all_digits(d.take(m - 1))) by {
            assert forall|i: int| 0 <= i < d.take(m - 1).len() implies is_digit(
                #[trigger] d.take(m - 1)[i],
            ) by {
                assert(d.take(m - 1)[i] == d.take(m)[i]);
            }
        }
        lemma_dec_prefix_mono(d, n, m - 1);
        lemma_dec_val_nonneg(d.take(m - 1));
        assert(is_digit(d.take(m)[m - 1]));
    }
}

/// `str::parse::<u32>` on a character slice.
pub fn parse_u32_exec(v: &[char]) -> (r: Option<u32>)
    ensures
        r == parse_u32(v@),
{
    let lo: usize = if v.len() > 0 && v[0] == '+' {
        1
    } else {
        0
    };
    assert(v@.skip(lo as int) =~= unsigned_body(v@));
    match digits_up_to(v, lo, 0xffff_ffff) {
        Some(x) => Some(x as u32),
        None => None,
    }
}

/// `str::parse::<i32>` on a character slice.
pub fn parse_i32_exec(v: &[char]) -> (r: Option<i32>)
    ensures
        r == parse_i32(v@),
{
    if v.len() > 0 && v[0] == '-' {
        assert(v@.skip(1) =~= v@.drop_first());
        match digits_up_to(v, 1, 0x8000_0000) {
            Some(x) => {
                let n: i64 = 0 - (x as i64);
                Some(n as i32)
            },
            None => None,
        }
    } else {
        let lo: usize = if v.len() > 0 && v[0] == '+' {
            1
        } else {
            0
        };
        assert(v@.skip(lo as int) =~= unsigned_body(v@));
        match digits_up_to(v, lo, 0x7fff_ffff) {
            Some(x) => Some(x as i32),
            None => None,
        }
    }
}

/// `str::parse::<i64>` on a character slice.
pub fn parse_i64_exec(v: &[char]) -> (r: Option<i64>)
    ensures
        r == parse_i64(v@),
{
    if v.len() > 0 && v[0] == '-' {
        assert(v@.skip(1) =~= v@.drop_first());
        match digits_up_to(v, 1, 0x8000_0000_0000_0000) {
            Some(x) => {
                if x == 0x8000_0000_0000_0000 {
                    Some(i64::MIN)
                } else {
                    Some(0 - (x as i64))
                }
            },
            None => None,
        }
    } else {
        let lo: usize = if v.len() > 0 && v[0] == '+' {
            1
        } else {
            0
        };
        assert(v@.skip(lo as int) =~= unsigned_body(v@));
        match digits_up_to(v, lo, 0x7fff_ffff_ffff_ffff) {
            Some(x) => Some(x as i64),
            None => None,
        }
    }
}

/// Pieces that `str::split(c)` yields, built left to right.
pub open spec fn split_acc(s: Seq<char>, c: char, cur: Seq<char>) -> Seq<Seq<char>>
    decreases s.len(),
{
    if s.len() == 0 {
        seq![cur]
    } else if s[0] == c {
        seq![cur] + split_acc(s.drop_first(), c, Seq::empty())
    } else {
        split_acc(s.drop_first(), c, cur.push(s[0]))
    }
}

/// What `str::split(c)` yields for a single-character separator.
pub open spec fn split_on(s: Seq<char>, c: char) -> Seq<Seq<char>> {
    split_acc(s, c, Seq::empty())
}

/// `str::split(c)` on a character slice.
pub fn split_on_exec(v: &[char], c: char) -> (r: Vec<Vec<char>>)
    ensures
        views(r@) == split_on(v@, c),
{
    let mut out: Vec<Vec<char>> = Vec::new();
    let mut cur: Vec<char> = Vec::new();
    let mut i: usize = 0;
    assert(v@.skip(0) =~= v@);
    assert(views(out@) =~= Seq::<Seq<char>>::empty());
    while i < v.len()
        invariant
            i <= v@.len(),
            views(out@) + split_acc(v@.skip(i as int), c, cur@) == split_on(v@, c),
        decreases v@.len() - i,
    {
        let ghost rest = v@.skip(i as int);
        assert(rest.drop_first() =~= v@.skip(i + 1));
        if v[i] == c {
            let ghost before = views(out@);
            out.push(cur);
            assert(views(out@) =~= before + seq![cur@]);
            cur = Vec::new();
            assert(cur@ =~= Seq::<char>::empty());
            assert(views(out@) + split_acc(v@.skip(i + 1), c, cur@) =~= split_on(v@, c));
        } else {
            cur.push(v[i]);
        }
        i = i + 1;
    }
    assert(v@.skip(i as int).len() == 0);
    let ghost before = views(out@);
    out.push(cur);
    assert(views(out@) =~= before + seq![cur@]);
    out
}

/// The characters of `s` other than `c`, in order (`str::replace(c, "")`).
pub open spec fn drop_char(s: Seq<char>, c: char) -> Seq<char>
    decreases s.len(),
{
    if s.len() == 0 {
        s
    } else if s.last() == c {
        drop_char(s.drop_last(), c)
    } else {
        drop_char(s.drop_last(), c).push(s.last())
    }
}

pub fn drop_char_exec(v: &[char], c: char) -> (r: Vec<char>)
    ensures
        r@ == drop_char(v@, c),
{
    let mut r: Vec<char> = Vec::new();
    let mut k: usize = 0;
    assert(v@.take(0) =~= Seq::<char>::empty());
    while k < v.len()
        invariant
            k <= v@.len(),
            r@ == drop_char(v@.take(k as int), c),
        decreases v@.len() - k,
    {
        assert(v@.take(k + 1).drop_last() =~= v@.take(k as int));
        if v[k] != c {
            r.push(v[k]);
        }
        k = k + 1;
    }
    assert(v@.take(k as int) =~= v@);
    r
}

/// Whitespace after the last word adds no word.
pub proof fn lemma_tokens_trailing_ws(s: Seq<char>, c: char, cur: Seq<char>)
    requires
        is_ws(c),
    ensures
        toks_acc(s.push(c), cur) == toks_acc(s, cur),
    decreases s.len(),
{
    if s.len() == 0 {
        reveal_with_fuel(toks_acc, 2);
        assert(seq![c].drop_first() =~= Seq::<char>::empty());
        assert(s.push(c) =~= seq![c]);
        let e = Seq::<Seq<char>>::empty();
        if cur.len() > 0 {
            assert(seq![cur] + e =~= seq![cur]);
        } else {
            assert(e + e =~= e);
        }
    } else {
        assert(s.push(c).drop_first() =~= s.drop_first().push(c));
        assert(s.push(c)[0] == s[0]);
        if is_ws(s[0]) {
            lemma_tokens_trailing_ws(s.drop_first(), c, Seq::empty());
        } else {
            lemma_tokens_trailing_ws(s.drop_first(), c, cur.push(s[0]));
        }
    }
}

/// The words of a string do not depend on surrounding whitespace.
pub proof fn lemma_tokens_trim(s: Seq<char>)
    ensures
        ws_tokens(trim(s)) == ws_tokens(s),
{
    lemma_tokens_trim_start(s);
    lemma_tokens_trim_end(trim_start(s));
}

proof fn lemma_tokens_trim_start(s: Seq<char>)
    ensures
        ws_tokens(trim_start(s)) == ws_tokens(s),
    decreases s.len(),
{
    if s.len() > 0 && is_ws(s[0]) {
        lemma_tokens_trim_start(s.drop_first());
        lemma_lead_ws_bound(s);
        lemma_lead_ws_bound(s.drop_first());
        assert(trim_start(s) =~= trim_start(s.drop_first()));
        let e = Seq::<Seq<char>>::empty();
        assert(e + toks_acc(s.drop_first(), Seq::empty()) =~= toks_acc(s.drop_first(), Seq::empty()));
    } else {
        assert(trim_start(s) =~= s);
    }
}

proof fn lemma_tokens_trim_end(s: Seq<char>)
    ensures
        ws_tokens(trim_end(s)) == ws_tokens(s),
    decreases s.len(),
{
    if s.len() > 0 && is_ws(s.last()) {
        lemma_tokens_trim_end(s.drop_last());
        lemma_trail_ws_bound(s);
        lemma_trail_ws_bound(s.drop_last());
        assert(trim_end(s) =~= trim_end(s.drop_last()));
        lemma_tokens_trailing_ws(s.drop_last(), s.last(), Seq::empty());
        assert(s.drop_last().push(s.last()) =~= s);
    } else {
        assert(trim_end(s) =~= s);
    }
}

pub open spec fn utf8_width(c: char) -> int {
    if (c as u32) < 0x80 {
        1
    } else if (c as u32) < 0x800 {
        2
    } else if (c as u32) < 0x10000 {
        3
    } else {
        4
    }
}

/// Length in bytes of the UTF-8 encoding.
pub open spec fn utf8_len(s: Seq<char>) -> int
    decreases s.len(),
{
    if s.len() == 0 {
        0
    } else {
        utf8_len(s.drop_last()) + utf8_width(s.last())
    }
}

/// Whether the UTF-8 encoding is longer than `n` bytes.
pub fn utf8_longer_than(v: &[char], n: u64) -> (r: bool)
    requires
        n < 0xffff_ffff,
    ensures
        r == (utf8_len(v@) > n),
{
    let mut total: u64 = 0;
    let mut k: usize = 0;
    assert(v@.take(0) =~= Seq::<char>::empty());
    while k < v.len()
        invariant
            k <= v@.len(),
            n < 0xffff_ffff,
            total == utf8_len(v@.take(k as int)),
            total <= n,
        decreases v@.len() - k,
    {
        let c = v[k];
        let w: u64 = if (c as u32) < 0x80 {
            1
        } else if (c as u32) < 0x800 {
            2
        } else if (c as u32) < 0x10000 {
            3
        } else {
            4
        };
        assert(v@.take(k + 1).drop_last() =~= v@.take(k as int));
        total = total + w;
        if total > n {
            proof {
                lemma_utf8_len_prefix(v@, k + 1);
            }
            return true;
        }
        k = k + 1;
    }
    assert(v@.take(k as int) =~= v@);
    false
}

pub(crate) proof fn lemma_utf8_len_prefix(s: Seq<char>, n: int)
    requires
        0 <= n <= s.len(),
    ensures
        utf8_len(s) >= utf8_len(s.take(n)),
    decreases s.len() - n,
{
    if n < s.len() {
        lemma_utf8_len_prefix(s, n + 1);
        assert(s.take(n + 1).drop_last() =~= s.take(n));
    } else {
        assert(s.take(n) =~= s);
    }
}

/// The characters of a string slice.
#[verifier::external_body]
pub(crate) fn str_chars(s: &str) -> (r: Vec<char>)
    ensures
        r@ == s@,
{
    s.chars().collect()
}

/// A string holding the given characters.
#[verifier::external_body]
pub(crate) fn string_of(v: &[char]) -> (r: String)
    ensures
        r@ == v@,
{
    v.iter().collect()
}

/// Append characters.
pub fn push_chars(acc: &mut Vec<char>, s: &[char])
    ensures
        final(acc)@ == old(acc)@ + s@,
{
    let mut k: usize = 0;
    while k < s.len()
        invariant
            k <= s@.len(),
            acc@ == old(acc)@ + s@.take(k as int),
        decreases s@.len() - k,
    {
        acc.push(s[k]);
        assert(s@.take(k + 1) =~= s@.take(k as int).push(s@[k as int]));
        k = k + 1;
    }
    assert(s@.take(k as int) =~= s@);
}

/// Append the characters of a string slice.
pub fn push_str(acc: &mut Vec<char>, s: &str)
    ensures
        final(acc)@ == old(acc)@ + s@,
{
    let v = str_chars(s);
    let mut k: usize = 0;
    while k < v.len()
        invariant
            k <= v@.len(),
            acc@ == old(acc)@ + v@.take(k as int),
        decreases v@.len() - k,
    {
        acc.push(v[k]);
        assert(v@.take(k + 1) =~= v@.take(k as int).push(v@[k as int]));
        k = k + 1;
    }
    assert(v@.take(k as int) =~= v@);
}

} // verus!
