//! Feed dates of the single-crate feed core: RFC 3339 timestamps and RFC 822
//! / 1123 `pubDate`s, normalized to UTC.
//!
//! This reading of RFC 822 wants all five fields (day, month, year, time and
//! zone), takes the month from the first three bytes of its token, windows
//! two-digit years at 70, and knows the zones `GMT UT Z EST EDT CST CDT MST
//! MDT PST PDT` besides numeric ones such as `+0000`, `-0500` or `+05:30`.
//! A date that cannot be read is `None`; callers store no date then.
use vstd::prelude::*;
use crate::date::{lemma_short_i32, month_from_abbr, month_num, parse_time, rfc822_body, time_of, two_digit_value};
use crate::datetime::{local_to_utc, utc_from_local};
use crate::instant::Instant;
use crate::strs::{
    dec_val, find_char_exec, is_digit, parse_i32, parse_i32_exec, parse_u32, parse_u32_exec, split_ws, subvec,
    trim, trim_vec, utf8_len, utf8_longer_than, utf8_width, views, ws_tokens, str_chars,
};

pub use crate::storedate::format_utc as to_rfc3339_z;
pub use crate::storedate::parse_rfc3339;

verus! {

/// Whether byte index 3 of a name falls inside a character while the name
/// is longer than three bytes: slicing its first three bytes then panics.
pub open spec fn splits_char_at_three(m: Seq<char>) -> bool {
    utf8_len(m) > 3 && !(exists|k: int| 0 <= k <= m.len() && #[trigger] utf8_len(m.take(k)) == 3)
}

/// The month of a name, read from its first three bytes in any case.
pub open spec fn month_from_name_of(m: Seq<char>) -> Option<u32> {
    if m.len() >= 3 {
        month_num(m.take(3))
    } else {
        None
    }
}

/// Offsets in seconds east of UTC of the named zones (case-sensitive).
pub open spec fn named_zone_seconds(z: Seq<char>) -> Option<i32> {
    if z == seq!['G', 'M', 'T'] || z == seq!['U', 'T'] || z == seq!['Z'] {
        Some(0i32)
    } else if z == seq!['E', 'S', 'T'] {
        Some(-18000i32)
    } else if z == seq!['E', 'D', 'T'] {
        Some(-14400i32)
    } else if z == seq!['C', 'S', 'T'] {
        Some(-21600i32)
    } else if z == seq!['C', 'D', 'T'] {
        Some(-18000i32)
    } else if z == seq!['M', 'S', 'T'] {
        Some(-25200i32)
    } else if z == seq!['M', 'D', 'T'] {
        Some(-21600i32)
    } else if z == seq!['P', 'S', 'T'] {
        Some(-28800i32)
    } else if z == seq!['P', 'D', 'T'] {
        Some(-25200i32)
    } else {
        None
    }
}

/// The ASCII digits of a text, in order.
pub open spec fn ascii_digits(s: Seq<char>) -> Seq<char>
    decreases s.len(),
{
    if s.len() == 0 {
        Seq::empty()
    } else if is_digit(s.last()) {
        ascii_digits(s.drop_last()).push(s.last())
    } else {
        ascii_digits(s.drop_last())
    }
}

/// A numeric zone: at least three bytes, a sign, then exactly four ASCII
/// digits among the rest (anything else ignored) read as `HHMM` with
/// `HH <= 23` and `MM <= 59`; in seconds east of UTC.
pub open spec fn numeric_zone_seconds(z: Seq<char>) -> Option<i32> {
    if utf8_len(z) < 3 || z.len() == 0 || (z[0] != '+' && z[0] != '-') {
        None
    } else {
        let d = ascii_digits(z.drop_first());
        if d.len() != 4 {
            None
        } else {
            let hh = dec_val(d.take(2));
            let mm = dec_val(d.skip(2));
            if hh > 23 || mm > 59 {
                None
            } else if z[0] == '-' {
                Some((-(hh * 3600 + mm * 60)) as i32)
            } else {
                Some((hh * 3600 + mm * 60) as i32)
            }
        }
    }
}

/// A zone name, else a numeric zone.
pub open spec fn zone_seconds(z: Seq<char>) -> Option<i32> {
    match named_zone_seconds(z) {
        Some(s) => Some(s),
        None => numeric_zone_seconds(z),
    }
}

/// A year token: two bytes or fewer are windowed at 70 (below 70 in the
/// 2000s, else the 1900s).
pub open spec fn windowed_year(t: Seq<char>) -> Option<i32> {
    match parse_i32(t) {
        Some(y) => if utf8_len(t) <= 2 {
            if y < 70 {
                Some((y + 2000) as i32)
            } else {
                Some((y + 1900) as i32)
            }
        } else {
            Some(y)
        },
        None => None,
    }
}

/// The tokens of an RFC 822 date: the trimmed text after a first comma (or
/// all of it), split at whitespace.
pub open spec fn date_tokens(s: Seq<char>) -> Seq<Seq<char>> {
    ws_tokens(rfc822_body(trim(s)))
}

/// Inputs on which reading the month slices through a character.
pub open spec fn month_slice_panics(s: Seq<char>) -> bool {
    let t = date_tokens(s);
    t.len() >= 5 && parse_u32(t[0]) is Some && splits_char_at_three(t[1])
}

/// The fields of an RFC 822 date: year, month, day, hour, minute, second
/// and the zone's offset in seconds.
pub open spec fn pub_date_fields(s: Seq<char>) -> Option<(i32, u32, u32, u32, u32, u32, i32)> {
    let t = date_tokens(s);
    if t.len() < 5 {
        None
    } else {
        match (parse_u32(t[0]), month_from_name_of(t[1]), windowed_year(t[2]), time_of(t[3]), zone_seconds(t[4])) {
            (Some(d), Some(m), Some(y), Some((h, mi, sec)), Some(off)) => Some((y, m, d, h, mi, sec, off)),
            _ => None,
        }
    }
}

/// What [`parse_rfc822`] returns.
pub open spec fn pub_date_of(s: Seq<char>) -> Option<Instant> {
    match pub_date_fields(s) {
        Some((y, m, d, h, mi, sec, off)) => local_to_utc(
            y as int,
            m as int,
            d as int,
            h as int,
            mi as int,
            sec as int,
            off as int,
        ),
        None => None,
    }
}

proof fn lemma_utf8_len_at_least(s: Seq<char>)
    ensures
        utf8_len(s) >= s.len(),
    decreases s.len(),
{
    if s.len() > 0 {
        lemma_utf8_len_at_least(s.drop_last());
    }
}

proof fn lemma_prefix_widths(m: Seq<char>, j: int, k: int)
    requires
        0 <= j < k <= m.len(),
    ensures
        utf8_len(m.take(j)) < utf8_len(m.take(k)),
    decreases k - j,
{
    assert(m.take(k).drop_last() =~= m.take(k - 1));
    if j < k - 1 {
        lemma_prefix_widths(m, j, k - 1);
    }
}

/// Whether slicing the first three bytes of a name would panic.
fn splits_at_three(m: &[char]) -> (r: bool)
    ensures
        r == splits_char_at_three(m@),
{
    let mut total: u64 = 0;
    let mut k: usize = 0;
    assert(m@.take(0) =~= Seq::<char>::empty());
    while k < m.len() && total < 3
        invariant
            k <= m@.len(),
            total == utf8_len(m@.take(k as int)),
            forall|j: int| 0 <= j < k ==> #[trigger] utf8_len(m@.take(j)) < 3,
        decreases m@.len() - k,
    {
        let c = m[k];
        let w: u64 = if (c as u32) < 0x80 {
            1
        } else if (c as u32) < 0x800 {
            2
        } else if (c as u32) < 0x10000 {
            3
        } else {
            4
        };
        assert(m@.take(k + 1).drop_last() =~= m@.take(k as int));
        assert(w == utf8_width(c));
        total = total + w;
        k = k + 1;
    }
    if total == 3 {
        return false;
    }
    // Either the whole name is at most three bytes, or the prefix sums jumped
    // over 3 at `k`.
    if k == m.len() && total < 3 {
        assert(m@.take(k as int) =~= m@);
        return false;
    }
    proof {
        assert forall|j: int| 0 <= j <= m@.len() implies #[trigger] utf8_len(m@.take(j)) != 3 by {
            if j < k {
            } else if j > k {
                lemma_prefix_widths(m@, k as int, j);
            }
        }
        crate::strs::lemma_utf8_len_prefix(m@, k as int);
    }
    let longer = utf8_longer_than(m, 3);
    longer
}

fn month_from_name(m: &[char]) -> (r: Option<u32>)
    ensures
        r == month_from_name_of(m@),
{
    if m.len() >= 3 {
        let head = subvec(m, 0, 3);
        assert(head@ =~= m@.take(3));
        month_from_abbr(head.as_slice())
    } else {
        None
    }
}

fn named_zone_offset(z: &[char]) -> (r: Option<i32>)
    ensures
        r == named_zone_seconds(z@),
{
    let w_gmt: &[char] = &['G', 'M', 'T'];
    let w_ut: &[char] = &['U', 'T'];
    let w_z: &[char] = &['Z'];
    let w_est: &[char] = &['E', 'S', 'T'];
    let w_edt: &[char] = &['E', 'D', 'T'];
    let w_cst: &[char] = &['C', 'S', 'T'];
    let w_cdt: &[char] = &['C', 'D', 'T'];
    let w_mst: &[char] = &['M', 'S', 'T'];
    let w_mdt: &[char] = &['M', 'D', 'T'];
    let w_pst: &[char] = &['P', 'S', 'T'];
    let w_pdt: &[char] = &['P', 'D', 'T'];
    assert(w_gmt@ == seq!['G', 'M', 'T']);
    assert(w_ut@ == seq!['U', 'T']);
    assert(w_z@ == seq!['Z']);
    assert(w_est@ == seq!['E', 'S', 'T']);
    assert(w_edt@ == seq!['E', 'D', 'T']);
    assert(w_cst@ == seq!['C', 'S', 'T']);
    assert(w_cdt@ == seq!['C', 'D', 'T']);
    assert(w_mst@ == seq!['M', 'S', 'T']);
    assert(w_mdt@ == seq!['M', 'D', 'T']);
    assert(w_pst@ == seq!['P', 'S', 'T']);
    assert(w_pdt@ == seq!['P', 'D', 'T']);
    if crate::strs::eq_chars(z, w_gmt) || crate::strs::eq_chars(z, w_ut) || crate::strs::eq_chars(z, w_z) {
        Some(0)
    } else if crate::strs::eq_chars(z, w_est) {
        Some(-18000)
    } else if crate::strs::eq_chars(z, w_edt) {
        Some(-14400)
    } else if crate::strs::eq_chars(z, w_cst) {
        Some(-21600)
    } else if crate::strs::eq_chars(z, w_cdt) {
        Some(-18000)
    } else if crate::strs::eq_chars(z, w_mst) {
        Some(-25200)
    } else if crate::strs::eq_chars(z, w_mdt) {
        Some(-21600)
    } else if crate::strs::eq_chars(z, w_pst) {
        Some(-28800)
    } else if crate::strs::eq_chars(z, w_pdt) {
        Some(-25200)
    } else {
        None
    }
}

fn digits_of(s: &[char]) -> (r: Vec<char>)
    ensures
        r@ == ascii_digits(s@),
{
    let mut out: Vec<char> = Vec::new();
    let mut k: usize = 0;
    assert(s@.take(0) =~= Seq::<char>::empty());
    while k < s.len()
        invariant
            k <= s@.len(),
            out@ == ascii_digits(s@.take(k as int)),
        decreases s@.len() - k,
    {
        assert(s@.take(k + 1).drop_last() =~= s@.take(k as int));
        assert(s@.take(k + 1).last() == s@[k as int]);
        if s[k] >= '0' && s[k] <= '9' {
            out.push(s[k]);
        }
        k = k + 1;
    }
    assert(s@.take(k as int) =~= s@);
    out
}

fn numeric_zone_offset(z: &[char]) -> (r: Option<i32>)
    ensures
        r == numeric_zone_seconds(z@),
{
    if !utf8_longer_than(z, 2) || z.len() == 0 || (z[0] != '+' && z[0] != '-') {
        return None;
    }
    let tail = subvec(z, 1, z.len());
    assert(tail@ =~= z@.drop_first());
    let d = digits_of(tail.as_slice());
    if d.len() != 4 {
        return None;
    }
    proof {
        let ds = ascii_digits(z@.drop_first());
        lemma_ascii_digits_are_digits(z@.drop_first());
        assert(is_digit(ds[0]) && is_digit(ds[1]) && is_digit(ds[2]) && is_digit(ds[3]));
        assert(ds.take(2) =~= seq![ds[0], ds[1]]);
        assert(ds.skip(2) =~= seq![ds[2], ds[3]]);
    }
    let hh = two_digit_value(d[0], d[1]);
    let mm = two_digit_value(d[2], d[3]);
    if hh > 23 || mm > 59 {
        return None;
    }
    let v = hh * 3600 + mm * 60;
    if z[0] == '-' {
        Some(-v)
    } else {
        Some(v)
    }
}

proof fn lemma_ascii_digits_are_digits(s: Seq<char>)
    ensures
        forall|i: int| 0 <= i < ascii_digits(s).len() ==> is_digit(#[trigger] ascii_digits(s)[i]),
    decreases s.len(),
{
    if s.len() > 0 {
        lemma_ascii_digits_are_digits(s.drop_last());
        let p = ascii_digits(s.drop_last());
        if is_digit(s.last()) {
            assert forall|i: int| 0 <= i < p.push(s.last()).len() implies is_digit(
                #[trigger] p.push(s.last())[i],
            ) by {
                if i < p.len() {
                    assert(p.push(s.last())[i] == p[i]);
                }
            }
        }
    }
}

fn zone_offset(z: &[char]) -> (r: Option<i32>)
    ensures
        r == zone_seconds(z@),
{
    match named_zone_offset(z) {
        Some(s) => Some(s),
        None => numeric_zone_offset(z),
    }
}

fn windowed_year_exec(t: &[char]) -> (r: Option<i32>)
    ensures
        r == windowed_year(t@),
{
    match parse_i32_exec(t) {
        Some(y) => if !utf8_longer_than(t, 2) {
            proof {
                lemma_utf8_len_at_least(t@);
                lemma_short_i32(t@);
            }
            if y < 70 {
                Some(y + 2000)
            } else {
                Some(y + 1900)
            }
        } else {
            Some(y)
        },
        None => None,
    }
}

fn date_tokens_exec(s: &str) -> (r: Vec<Vec<char>>)
    ensures
        views(r@) == date_tokens(s@),
{
    let v = str_chars(s);
    let t = trim_vec(v.as_slice());
    let body: Vec<char> = match find_char_exec(t.as_slice(), ',') {
        Some(i) => {
            let n = t.len();
            let rest = subvec(t.as_slice(), i + 1, n);
            assert(rest@ =~= t@.skip(i + 1));
            trim_vec(rest.as_slice())
        },
        None => t,
    };
    assert(body@ =~= rfc822_body(trim(s@)));
    split_ws(body.as_slice())
}

/// Whether [`parse_rfc822`] would slice through a character of the month
/// token (the inputs it does not take).
pub fn month_slice_would_panic(s: &str) -> (r: bool)
    ensures
        r == month_slice_panics(s@),
{
    let tokens = date_tokens_exec(s);
    assert(views(tokens@).len() == tokens@.len());
    if tokens.len() < 5 {
        return false;
    }
    assert(views(tokens@)[0] == tokens@[0]@);
    assert(views(tokens@)[1] == tokens@[1]@);
    parse_u32_exec(tokens[0].as_slice()).is_some() && splits_at_three(tokens[1].as_slice())
}

/// Parse an RFC 822 / 1123 date as RSS `pubDate` carries it, normalized to
/// UTC; `None` on any failure.
pub fn parse_rfc822(s: &str) -> (r: Option<Instant>)
    requires
        !month_slice_panics(s@),
    ensures
        r == pub_date_of(s@),
        r matches Some(i) ==> i.valid(),
{
    let tokens = date_tokens_exec(s);
    assert(views(tokens@).len() == tokens@.len());
    if tokens.len() < 5 {
        return None;
    }
    assert(views(tokens@)[0] == tokens@[0]@);
    assert(views(tokens@)[1] == tokens@[1]@);
    assert(views(tokens@)[2] == tokens@[2]@);
    assert(views(tokens@)[3] == tokens@[3]@);
    assert(views(tokens@)[4] == tokens@[4]@);
    let day = match parse_u32_exec(tokens[0].as_slice()) {
        Some(d) => d,
        None => return None,
    };
    let month = match month_from_name(tokens[1].as_slice()) {
        Some(m) => m,
        None => return None,
    };
    let year = match windowed_year_exec(tokens[2].as_slice()) {
        Some(y) => y,
        None => return None,
    };
    let (hour, minute, second) = match parse_time(tokens[3].as_slice()) {
        Some(t) => t,
        None => return None,
    };
    let off = match zone_offset(tokens[4].as_slice()) {
        Some(o) => o,
        None => return None,
    };
    utc_from_local(year, month, day, hour, minute, second, off)
}

/// A leading weekday is optional: text up to a first comma does not change
/// the date read from what follows.
pub proof fn law_weekday_optional(w: Seq<char>, s: Seq<char>)
    requires
        crate::strs::find_char(w, ',') is None,
        crate::strs::find_char(s, ',') is None,
        trim(w + seq![','] + s) == w + seq![','] + s,
    ensures
        pub_date_fields(w + seq![','] + s) == pub_date_fields(s),
{
    let t = w + seq![','] + s;
    crate::strs::lemma_find_char_some(w, ',');
    crate::strs::lemma_find_char_some(s, ',');
    assert forall|k: int| 0 <= k < w.len() implies t[k] != ',' by {
        assert(t[k] == w[k]);
    }
    crate::strs::lemma_find_char(t, ',', w.len() as int);
    assert(t.skip(w.len() as int + 1) =~= s);
    let ts = trim(s);
    let st = crate::strs::trim_start(s);
    crate::strs::lemma_lead_ws_bound(s);
    crate::strs::lemma_trail_ws_bound(st);
    assert forall|k: int| 0 <= k < ts.len() implies ts[k] != ',' by {
        assert(ts[k] == st[k]);
        assert(st[k] == s[k + crate::strs::lead_ws(s)]);
    }
    crate::strs::lemma_find_char(ts, ',', ts.len() as int);
}

} // verus!
