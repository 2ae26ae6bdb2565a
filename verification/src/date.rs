//! Date parsing and normalization.
//!
//! All successfully parsed instants are normalized to UTC. A missing or
//! unparseable date yields `None`; callers never substitute the fetch time.
//!
//! Accepted forms: RFC 3339 (any numeric offset, optional fractional
//! seconds), read by `chrono`, and RFC 822 / 1123 (4-digit years, 2-digit
//! tolerated, numeric offsets like `+0000`/`-0500`, and the zone names
//! `GMT UT UTC Z EST EDT CST CDT MST MDT PST PDT`).
use vstd::prelude::*;
use crate::instant::{
    civil_shift_overflows, civil_to_utc, format_z, parse_rfc3339_utc, rfc3339_instant,
    utc_from_civil, z_text, civil_valid, Instant,
};
use crate::strs::{
    all_digits, dec_val, drop_char, drop_char_exec, eq_chars, find_char, find_char_exec, lower,
    lower_vec, parse_i32, parse_i32_exec, parse_u32, parse_u32_exec, split_on, split_on_exec,
    split_ws, string_of, subvec, trim, trim_vec, views, ws_tokens, str_chars,
};

verus! {

/// The month number of a three-letter English abbreviation, in any case.
pub open spec fn month_num(m: Seq<char>) -> Option<u32> {
    let l = lower(m);
    if l == seq!['j', 'a', 'n'] {
        Some(1u32)
    } else if l == seq!['f', 'e', 'b'] {
        Some(2u32)
    } else if l == seq!['m', 'a', 'r'] {
        Some(3u32)
    } else if l == seq!['a', 'p', 'r'] {
        Some(4u32)
    } else if l == seq!['m', 'a', 'y'] {
        Some(5u32)
    } else if l == seq!['j', 'u', 'n'] {
        Some(6u32)
    } else if l == seq!['j', 'u', 'l'] {
        Some(7u32)
    } else if l == seq!['a', 'u', 'g'] {
        Some(8u32)
    } else if l == seq!['s', 'e', 'p'] {
        Some(9u32)
    } else if l == seq!['o', 'c', 't'] {
        Some(10u32)
    } else if l == seq!['n', 'o', 'v'] {
        Some(11u32)
    } else if l == seq!['d', 'e', 'c'] {
        Some(12u32)
    } else {
        None
    }
}

/// Offsets in minutes east of UTC of the named zones (case-sensitive).
pub open spec fn zone_minutes(z: Seq<char>) -> Option<i32> {
    if z == seq!['G', 'M', 'T'] || z == seq!['U', 'T'] || z == seq!['U', 'T', 'C'] || z == seq!['Z'] {
        Some(0i32)
    } else if z == seq!['E', 'S', 'T'] {
        Some(-300i32)
    } else if z == seq!['E', 'D', 'T'] {
        Some(-240i32)
    } else if z == seq!['C', 'S', 'T'] {
        Some(-360i32)
    } else if z == seq!['C', 'D', 'T'] {
        Some(-300i32)
    } else if z == seq!['M', 'S', 'T'] {
        Some(-420i32)
    } else if z == seq!['M', 'D', 'T'] {
        Some(-360i32)
    } else if z == seq!['P', 'S', 'T'] {
        Some(-480i32)
    } else if z == seq!['P', 'D', 'T'] {
        Some(-420i32)
    } else {
        None
    }
}

/// A zone name, or a sign followed by four digits `HHMM` (colons ignored).
pub open spec fn offset_minutes(z: Seq<char>) -> Option<i32> {
    match zone_minutes(z) {
        Some(m) => Some(m),
        None => {
            if z.len() >= 1 && (z[0] == '+' || z[0] == '-') {
                let rest = drop_char(z.drop_first(), ':');
                if rest.len() == 4 && all_digits(rest) {
                    let v = dec_val(rest.take(2)) * 60 + dec_val(rest.skip(2));
                    Some(
                        (if z[0] == '-' {
                            -v
                        } else {
                            v
                        }) as i32,
                    )
                } else {
                    None
                }
            } else {
                None
            }
        },
    }
}

/// A year; one or two characters pivot at 50 (00-49 => 2000s, 50-99 => 1900s).
pub open spec fn year_of(t: Seq<char>) -> Option<i32> {
    match parse_i32(t) {
        Some(y) => if t.len() <= 2 {
            if y < 50 {
                Some((2000 + y) as i32)
            } else {
                Some((1900 + y) as i32)
            }
        } else {
            Some(y)
        },
        None => None,
    }
}

/// `H:M` or `H:M:S`; further `:`-separated parts are ignored.
pub open spec fn time_of(t: Seq<char>) -> Option<(u32, u32, u32)> {
    let parts = split_on(t, ':');
    if parts.len() < 2 {
        None
    } else {
        match (
            parse_u32(parts[0]),
            parse_u32(parts[1]),
            if parts.len() >= 3 {
                parse_u32(parts[2])
            } else {
                Some(0u32)
            },
        ) {
            (Some(h), Some(m), Some(s)) => Some((h, m, s)),
            _ => None,
        }
    }
}

/// The text after the first comma (an optional leading weekday), trimmed.
pub open spec fn rfc822_body(s: Seq<char>) -> Seq<char> {
    match find_char(s, ',') {
        Some(i) => trim(s.skip(i + 1)),
        None => s,
    }
}

/// The fields of an RFC 822 date: year, month, day, hour, minute, second and
/// offset in minutes (0 when no zone is given).
pub open spec fn rfc822_fields(s: Seq<char>) -> Option<(i32, u32, u32, u32, u32, u32, i32)> {
    let toks = ws_tokens(rfc822_body(s));
    if toks.len() < 4 {
        None
    } else {
        match (
            parse_u32(toks[0]),
            month_num(toks[1]),
            year_of(toks[2]),
            time_of(toks[3]),
            if toks.len() > 4 {
                offset_minutes(toks[4])
            } else {
                Some(0i32)
            },
        ) {
            (Some(d), Some(m), Some(y), Some((h, mi, sec)), Some(off)) => Some(
                (y, m, d, h, mi, sec, off),
            ),
            _ => None,
        }
    }
}

/// The UTC instant of an RFC 822 date.
pub open spec fn rfc822_instant(s: Seq<char>) -> Option<Instant> {
    match rfc822_fields(s) {
        Some((y, m, d, h, mi, sec, off)) => civil_to_utc(
            y as int,
            m as int,
            d as int,
            h as int,
            mi as int,
            sec as int,
            off as int,
        ),
        None => None,
    }
}

/// An RFC 822 date whose wall-clock time is valid but whose UTC instant lies
/// outside the calendar's range (`chrono` panics on the subtraction).
pub open spec fn rfc822_overflows(s: Seq<char>) -> bool {
    match rfc822_fields(s) {
        Some((y, m, d, h, mi, sec, off)) => civil_shift_overflows(
            y as int,
            m as int,
            d as int,
            h as int,
            mi as int,
            sec as int,
            off as int,
        ),
        None => false,
    }
}

/// What [`parse_date`] returns: RFC 3339 first, then RFC 822, on the
/// trimmed input; `None` for blank input.
pub open spec fn date_of(input: Seq<char>) -> Option<Instant> {
    let s = trim(input);
    if s.len() == 0 {
        None
    } else if rfc3339_instant(s) is Some {
        rfc3339_instant(s)
    } else {
        rfc822_instant(s)
    }
}

/// Inputs on which [`parse_date`] would have to leave the calendar's range.
pub open spec fn date_overflows(input: Seq<char>) -> bool {
    rfc822_overflows(trim(input))
}

pub(crate) fn month_from_abbr(m: &[char]) -> (r: Option<u32>)
    ensures
        r == month_num(m@),
{
    let l = lower_vec(m);
    let l = l.as_slice();
    if eq_chars(l, &['j', 'a', 'n']) {
        Some(1)
    } else if eq_chars(l, &['f', 'e', 'b']) {
        Some(2)
    } else if eq_chars(l, &['m', 'a', 'r']) {
        Some(3)
    } else if eq_chars(l, &['a', 'p', 'r']) {
        Some(4)
    } else if eq_chars(l, &['m', 'a', 'y']) {
        Some(5)
    } else if eq_chars(l, &['j', 'u', 'n']) {
        Some(6)
    } else if eq_chars(l, &['j', 'u', 'l']) {
        Some(7)
    } else if eq_chars(l, &['a', 'u', 'g']) {
        Some(8)
    } else if eq_chars(l, &['s', 'e', 'p']) {
        Some(9)
    } else if eq_chars(l, &['o', 'c', 't']) {
        Some(10)
    } else if eq_chars(l, &['n', 'o', 'v']) {
        Some(11)
    } else if eq_chars(l, &['d', 'e', 'c']) {
        Some(12)
    } else {
        None
    }
}

/// Named time-zone offsets in minutes.
fn named_zone_offset(z: &[char]) -> (r: Option<i32>)
    ensures
        r == zone_minutes(z@),
{
    let name_gmt: &[char] = &['G', 'M', 'T'];
    assert(name_gmt@ == seq!['G', 'M', 'T']);
    let name_ut: &[char] = &['U', 'T'];
    assert(name_ut@ == seq!['U', 'T']);
    let name_utc: &[char] = &['U', 'T', 'C'];
    assert(name_utc@ == seq!['U', 'T', 'C']);
    let name_z: &[char] = &['Z'];
    assert(name_z@ == seq!['Z']);
    let name_est: &[char] = &['E', 'S', 'T'];
    assert(name_est@ == seq!['E', 'S', 'T']);
    let name_edt: &[char] = &['E', 'D', 'T'];
    assert(name_edt@ == seq!['E', 'D', 'T']);
    let name_cst: &[char] = &['C', 'S', 'T'];
    assert(name_cst@ == seq!['C', 'S', 'T']);
    let name_cdt: &[char] = &['C', 'D', 'T'];
    assert(name_cdt@ == seq!['C', 'D', 'T']);
    let name_mst: &[char] = &['M', 'S', 'T'];
    assert(name_mst@ == seq!['M', 'S', 'T']);
    let name_mdt: &[char] = &['M', 'D', 'T'];
    assert(name_mdt@ == seq!['M', 'D', 'T']);
    let name_pst: &[char] = &['P', 'S', 'T'];
    assert(name_pst@ == seq!['P', 'S', 'T']);
    let name_pdt: &[char] = &['P', 'D', 'T'];
    assert(name_pdt@ == seq!['P', 'D', 'T']);
    if eq_chars(z, name_gmt) {
        Some(0)
    } else if eq_chars(z, name_ut) {
        Some(0)
    } else if eq_chars(z, name_utc) {
        Some(0)
    } else if eq_chars(z, name_z) {
        Some(0)
    } else if eq_chars(z, name_est) {
        Some(-300)
    } else if eq_chars(z, name_edt) {
        Some(-240)
    } else if eq_chars(z, name_cst) {
        Some(-360)
    } else if eq_chars(z, name_cdt) {
        Some(-300)
    } else if eq_chars(z, name_mst) {
        Some(-420)
    } else if eq_chars(z, name_mdt) {
        Some(-360)
    } else if eq_chars(z, name_pst) {
        Some(-480)
    } else if eq_chars(z, name_pdt) {
        Some(-420)
    } else {
        None
    }
}

pub(crate) fn two_digit_value(a: char, b: char) -> (r: i32)
    requires
        '0' <= a <= '9',
        '0' <= b <= '9',
    ensures
        r == dec_val(seq![a, b]),
        0 <= r <= 99,
{
    let x = (a as u32 - '0' as u32) as i32;
    let y = (b as u32 - '0' as u32) as i32;
    proof {
        assert(seq![a, b].drop_last() =~= seq![a]);
        assert(seq![a].drop_last() =~= Seq::<char>::empty());
        assert(dec_val(Seq::<char>::empty()) == 0);
        assert(dec_val(seq![a]) == x);
        assert(dec_val(seq![a, b]) == x * 10 + y);
    }
    x * 10 + y
}

fn parse_offset(z: &[char]) -> (r: Option<i32>)
    ensures
        r == offset_minutes(z@),
        r matches Some(m) ==> -6039 <= m <= 6039,
{
    if let Some(m) = named_zone_offset(z) {
        return Some(m);
    }
    if z.len() >= 1 && (z[0] == '+' || z[0] == '-') {
        let tail = subvec(z, 1, z.len());
        assert(tail@ =~= z@.drop_first());
        let rest = drop_char_exec(tail.as_slice(), ':');
        if rest.len() == 4 && rest[0] >= '0' && rest[0] <= '9' && rest[1] >= '0' && rest[1] <= '9'
            && rest[2] >= '0' && rest[2] <= '9' && rest[3] >= '0' && rest[3] <= '9' {
            let hh = two_digit_value(rest[0], rest[1]);
            let mm = two_digit_value(rest[2], rest[3]);
            proof {
                assert(rest@.take(2) =~= seq![rest@[0], rest@[1]]);
                assert(rest@.skip(2) =~= seq![rest@[2], rest@[3]]);
                assert(all_digits(rest@));
            }
            let v = hh * 60 + mm;
            if z[0] == '-' {
                Some(-v)
            } else {
                Some(v)
            }
        } else {
            proof {
                if rest@.len() == 4 && all_digits(rest@) {
                    assert('0' <= rest@[0] <= '9');
                    assert('0' <= rest@[1] <= '9');
                    assert('0' <= rest@[2] <= '9');
                    assert('0' <= rest@[3] <= '9');
                }
            }
            None
        }
    } else {
        None
    }
}

fn parse_year(t: &[char]) -> (r: Option<i32>)
    ensures
        r == year_of(t@),
{
    match parse_i32_exec(t) {
        Some(y) => if t.len() <= 2 {
            proof {
                if y >= 100 || y <= -100 {
                    lemma_short_i32(t@);
                }
            }
            if y < 50 {
                Some(2000 + y)
            } else {
                Some(1900 + y)
            }
        } else {
            Some(y)
        },
        None => None,
    }
}

/// A number of at most two characters is within -99..=99.
pub(crate) proof fn lemma_short_i32(t: Seq<char>)
    requires
        t.len() <= 2,
        parse_i32(t) is Some,
    ensures
        -99 <= parse_i32(t)->0 <= 99,
{
    reveal_with_fuel(dec_val, 3);
    if t.len() > 0 && t[0] == '-' {
        let d = t.drop_first();
        if d.len() == 1 {
            assert(d.drop_last() =~= Seq::<char>::empty());
        }
    } else {
        let d = crate::strs::unsigned_body(t);
        if d.len() == 1 {
            assert(d.drop_last() =~= Seq::<char>::empty());
        } else if d.len() == 2 {
            assert(d.drop_last().drop_last() =~= Seq::<char>::empty());
            assert(crate::strs::is_digit(d[0]));
            assert(crate::strs::is_digit(d[1]));
        }
    }
}

pub(crate) fn parse_time(t: &[char]) -> (r: Option<(u32, u32, u32)>)
    ensures
        r == time_of(t@),
{
    let parts = split_on_exec(t, ':');
    proof {
        assert(views(parts@).len() == parts@.len());
    }
    if parts.len() < 2 {
        return None;
    }
    assert(views(parts@)[0] == parts@[0]@);
    assert(views(parts@)[1] == parts@[1]@);
    let hour = match parse_u32_exec(parts[0].as_slice()) {
        Some(h) => h,
        None => return None,
    };
    let minute = match parse_u32_exec(parts[1].as_slice()) {
        Some(m) => m,
        None => return None,
    };
    let second = if parts.len() >= 3 {
        assert(views(parts@)[2] == parts@[2]@);
        match parse_u32_exec(parts[2].as_slice()) {
            Some(s) => s,
            None => return None,
        }
    } else {
        0
    };
    Some((hour, minute, second))
}

/// The fields of an RFC 822 / 1123 date.
fn rfc822_fields_exec(s: &[char]) -> (r: Option<(i32, u32, u32, u32, u32, u32, i32)>)
    ensures
        r == rfc822_fields(s@),
        r matches Some(f) ==> -6039 <= f.6 <= 6039,
{
    let body: Vec<char> = match find_char_exec(s, ',') {
        Some(i) => {
            let n = s.len();
            let rest = subvec(s, i + 1, n);
            assert(rest@ =~= s@.skip(i + 1));
            trim_vec(rest.as_slice())
        },
        None => subvec(s, 0, s.len()),
    };
    assert(body@ =~= rfc822_body(s@));
    let tokens = split_ws(body.as_slice());
    assert(views(tokens@).len() == tokens@.len());
    if tokens.len() < 4 {
        return None;
    }
    assert(views(tokens@)[0] == tokens@[0]@);
    assert(views(tokens@)[1] == tokens@[1]@);
    assert(views(tokens@)[2] == tokens@[2]@);
    assert(views(tokens@)[3] == tokens@[3]@);
    let day = match parse_u32_exec(tokens[0].as_slice()) {
        Some(d) => d,
        None => return None,
    };
    let month = match month_from_abbr(tokens[1].as_slice()) {
        Some(m) => m,
        None => return None,
    };
    let year = match parse_year(tokens[2].as_slice()) {
        Some(y) => y,
        None => return None,
    };
    let (hour, minute, second) = match parse_time(tokens[3].as_slice()) {
        Some(t) => t,
        None => return None,
    };
    let offset_min: i32 = if tokens.len() > 4 {
        assert(views(tokens@)[4] == tokens@[4]@);
        match parse_offset(tokens[4].as_slice()) {
            Some(z) => z,
            None => return None,
        }
    } else {
        0
    };
    Some((year, month, day, hour, minute, second, offset_min))
}

/// Parse an RFC 822 / 1123 date.
fn parse_rfc822(s: &[char]) -> (r: Option<Instant>)
    requires
        !rfc822_overflows(s@),
    ensures
        r == rfc822_instant(s@),
{
    match rfc822_fields_exec(s) {
        Some((y, m, d, h, mi, sec, off)) => utc_from_civil(y, m, d, h, mi, sec, off),
        None => None,
    }
}

/// Whether [`parse_date`] would have to leave the calendar's range on this
/// input (a valid RFC 822 wall-clock time shifted past the first or last
/// representable second).
pub fn date_would_overflow(input: &str) -> (r: bool)
    ensures
        r == date_overflows(input@),
{
    let v = str_chars(input);
    let s = trim_vec(v.as_slice());
    match rfc822_fields_exec(s.as_slice()) {
        Some((y, m, d, h, mi, sec, off)) => civil_valid(y, m, d, h, mi, sec) && utc_from_civil(
            y,
            m,
            d,
            h,
            mi,
            sec,
            off,
        ).is_none(),
        None => false,
    }
}

/// Parse a feed date string into a UTC instant.
///
/// Returns `None` when the input is blank or cannot be parsed.
pub fn parse_date(input: &str) -> (r: Option<Instant>)
    requires
        !date_overflows(input@),
    ensures
        r == date_of(input@),
        r matches Some(i) ==> i.valid(),
{
    let v = str_chars(input);
    let s = trim_vec(v.as_slice());
    if s.len() == 0 {
        return None;
    }
    let text = string_of(s.as_slice());
    if let Some(dt) = parse_rfc3339_utc(text.as_str()) {
        return Some(dt);
    }
    let r = parse_rfc822(s.as_slice());
    proof {
        lemma_civil_valid(s@);
    }
    r
}

/// An RFC 822 instant is always within range and has no sub-second part.
proof fn lemma_civil_valid(s: Seq<char>)
    ensures
        rfc822_instant(s) matches Some(i) ==> i.valid(),
{
}

/// Serialize a UTC instant as RFC 3339 with a `Z` suffix (no fractional
/// seconds), matching the stored representation.
pub fn to_rfc3339_z(dt: &Instant) -> (r: String)
    requires
        dt.valid(),
    ensures
        r@ == z_text(*dt),
{
    format_z(*dt)
}

/// A leading weekday (`Mon,`) is optional: text up to a first comma does
/// not change the date read from what follows.
pub proof fn law_weekday_optional(w: Seq<char>, s: Seq<char>)
    requires
        find_char(w, ',') is None,
        find_char(s, ',') is None,
    ensures
        rfc822_fields(w + seq![','] + s) == rfc822_fields(s),
{
    let t = w + seq![','] + s;
    crate::strs::lemma_find_char_some(w, ',');
    assert forall|k: int| 0 <= k < w.len() implies t[k] != ',' by {
        assert(t[k] == w[k]);
    }
    crate::strs::lemma_find_char(t, ',', w.len() as int);
    assert(t.skip(w.len() as int + 1) =~= s);
    crate::strs::lemma_tokens_trim(s);
}

/// The English month abbreviations, January first.
pub open spec fn month_abbrs() -> Seq<Seq<char>> {
    seq![
        seq!['j', 'a', 'n'],
        seq!['f', 'e', 'b'],
        seq!['m', 'a', 'r'],
        seq!['a', 'p', 'r'],
        seq!['m', 'a', 'y'],
        seq!['j', 'u', 'n'],
        seq!['j', 'u', 'l'],
        seq!['a', 'u', 'g'],
        seq!['s', 'e', 'p'],
        seq!['o', 'c', 't'],
        seq!['n', 'o', 'v'],
        seq!['d', 'e', 'c'],
    ]
}

proof fn lemma_lower_of_lowercase(s: Seq<char>)
    requires
        forall|i: int| 0 <= i < s.len() ==> 'a' <= #[trigger] s[i] <= 'z',
    ensures
        lower(s) == s,
{
    assert(lower(s) =~= s);
}

/// A month name reads as its place in the calendar: the `k`-th English
/// abbreviation (in any case) is month `k`, nothing else names a month, and
/// the month of every RFC 822 date is the place of its month name.
pub proof fn law_month_names_in_calendar_order(s: Seq<char>)
    ensures
        forall|k: int| 1 <= k <= 12 ==> #[trigger] month_num(month_abbrs()[k - 1]) == Some(k as u32),
        month_num(s) matches Some(m) ==> 1 <= m <= 12 && lower(s) == month_abbrs()[m - 1],
        forall|k: int| 1 <= k <= 12 && lower(s) == #[trigger] month_abbrs()[k - 1] ==> month_num(s) == Some(k as u32),
        rfc822_fields(s) matches Some(f) ==> 1 <= f.1 <= 12 && lower(ws_tokens(rfc822_body(s))[1])
            == month_abbrs()[f.1 - 1],
{
    let t = month_abbrs();
    assert forall|k: int| 1 <= k <= 12 implies #[trigger] month_num(t[k - 1]) == Some(k as u32) by {
        let w = t[k - 1];
        assert(forall|i: int| 0 <= i < w.len() ==> 'a' <= #[trigger] w[i] <= 'z');
        lemma_lower_of_lowercase(w);
    }
    let toks = ws_tokens(rfc822_body(s));
    if rfc822_fields(s) is Some {
        assert(month_num(toks[1]) is Some);
    }
}

/// The named zones: `GMT`, `UT`, `UTC` and `Z` are UTC; `EST` is five
/// hours behind it; each US daylight zone is one hour ahead of its standard
/// zone; and eastern, central, mountain and pacific time each lie one hour
/// west of the one before.
pub proof fn law_zone_names()
    ensures
        zone_minutes(seq!['G', 'M', 'T']) == Some(0i32),
        zone_minutes(seq!['U', 'T']) == Some(0i32),
        zone_minutes(seq!['U', 'T', 'C']) == Some(0i32),
        zone_minutes(seq!['Z']) == Some(0i32),
        zone_minutes(seq!['E', 'S', 'T'])->0 == -5 * 60,
        zone_minutes(seq!['E', 'S', 'T']) is Some,
        zone_minutes(seq!['E', 'D', 'T'])->0 == zone_minutes(seq!['E', 'S', 'T'])->0 + 60,
        zone_minutes(seq!['C', 'D', 'T'])->0 == zone_minutes(seq!['C', 'S', 'T'])->0 + 60,
        zone_minutes(seq!['M', 'D', 'T'])->0 == zone_minutes(seq!['M', 'S', 'T'])->0 + 60,
        zone_minutes(seq!['P', 'D', 'T'])->0 == zone_minutes(seq!['P', 'S', 'T'])->0 + 60,
        zone_minutes(seq!['C', 'S', 'T'])->0 == zone_minutes(seq!['E', 'S', 'T'])->0 - 60,
        zone_minutes(seq!['M', 'S', 'T'])->0 == zone_minutes(seq!['C', 'S', 'T'])->0 - 60,
        zone_minutes(seq!['P', 'S', 'T'])->0 == zone_minutes(seq!['M', 'S', 'T'])->0 - 60,
        zone_minutes(seq!['E', 'D', 'T']) is Some,
        zone_minutes(seq!['C', 'S', 'T']) is Some,
        zone_minutes(seq!['C', 'D', 'T']) is Some,
        zone_minutes(seq!['M', 'S', 'T']) is Some,
        zone_minutes(seq!['M', 'D', 'T']) is Some,
        zone_minutes(seq!['P', 'S', 'T']) is Some,
        zone_minutes(seq!['P', 'D', 'T']) is Some,
{
}

/// Dropping colons leaves a string of digits as it is.
proof fn lemma_digits_keep_colons_out(d: Seq<char>)
    requires
        all_digits(d),
    ensures
        drop_char(d, ':') == d,
    decreases d.len(),
{
    if d.len() > 0 {
        assert(all_digits(d.drop_last()));
        lemma_digits_keep_colons_out(d.drop_last());
        assert(d.drop_last().push(d.last()) =~= d);
    }
}

/// A numeric offset `+HHMM` is that many hours and minutes east of UTC,
/// and `-HHMM` the same amount west.
pub proof fn law_numeric_offsets(d: Seq<char>)
    requires
        d.len() == 4,
        all_digits(d),
    ensures
        offset_minutes(seq!['+'] + d) == Some((dec_val(d.take(2)) * 60 + dec_val(d.skip(2))) as i32),
        offset_minutes(seq!['-'] + d) == Some((-(dec_val(d.take(2)) * 60 + dec_val(d.skip(2)))) as i32),
{
    let p = seq!['+'] + d;
    let n = seq!['-'] + d;
    assert(p.drop_first() =~= d);
    assert(n.drop_first() =~= d);
    assert(zone_minutes(p) is None) by {
        assert(p[0] == '+');
    }
    assert(zone_minutes(n) is None) by {
        assert(n[0] == '-');
    }
    lemma_digits_keep_colons_out(d);
}

} // verus!
