//! Date parsing and the pinned storage format at whole seconds.
//!
//! Every stored instant is normalized to UTC and written as RFC 3339 with a
//! `Z` suffix and second precision (`2024-03-01T12:30:00Z`). A query bound
//! with a fractional second is rounded up to the next whole second, so that
//! comparing whole-second instants against it keeps the comparison's sense.
use vstd::prelude::*;
use crate::date::{month_from_abbr, month_num};
use crate::datetime::{
    hms_of, lemma_dec_val_small, local_to_utc, numeric_offset_seconds, numeric_seconds, parse_hms, pow10,
    rfc3339_text_opts, rfc3339_z_opts, utc_from_local,
};
use crate::instant::{parse_rfc3339_utc, rfc3339_instant, Instant, MAX_SECS};
use crate::strs::{
    all_digits, all_digits_exec, eq_chars, find_char, find_char_exec, parse_i32, parse_i32_exec, parse_u32,
    parse_u32_exec, split_ws, str_chars, string_of, subvec, trim, trim_vec, upper, upper_vec, views, ws_tokens,
};

verus! {

/// The stored text of an instant: RFC 3339 in UTC with a `Z` suffix, whole
/// seconds (the sub-second part is dropped).
pub open spec fn utc_text(dt: Instant) -> Seq<char> {
    rfc3339_z_opts(dt, false)
}

/// Serialize an instant in the pinned storage format: RFC 3339, UTC, `Z`,
/// rounded down to the second.
pub fn format_utc(dt: Instant) -> (r: String)
    requires
        dt.valid(),
    ensures
        r@ == utc_text(dt),
{
    rfc3339_text_opts(dt, false)
}

/// An instant rounded up to the next whole second when it has a fractional
/// part (the last representable second stays as it is).
pub open spec fn ceil_second(dt: Instant) -> Instant {
    if dt.nanos == 0 {
        dt
    } else if dt.secs < MAX_SECS {
        Instant { secs: (dt.secs + 1) as i64, nanos: 0 }
    } else {
        dt
    }
}

/// Serialize an instant in the storage format, rounding up to the next whole
/// second when it has a fractional part: what a query bound needs, since
/// stored instants are whole seconds.
pub fn format_utc_ceil(dt: Instant) -> (r: String)
    requires
        dt.valid(),
    ensures
        r@ == utc_text(ceil_second(dt)),
{
    let rounded = if dt.nanos == 0 {
        dt
    } else if dt.secs < MAX_SECS {
        Instant { secs: dt.secs + 1, nanos: 0 }
    } else {
        dt
    };
    format_utc(rounded)
}

/// What [`parse_rfc3339`] returns: the trimmed text read as RFC 3339 and
/// converted to UTC.
pub open spec fn plain_rfc3339_of(s: Seq<char>) -> Option<Instant> {
    rfc3339_instant(trim(s))
}

/// Parse an RFC 3339 timestamp with any numeric offset and optional
/// fractional seconds, returning it as UTC.
pub fn parse_rfc3339(s: &str) -> (r: Option<Instant>)
    ensures
        r == plain_rfc3339_of(s@),
        r matches Some(i) ==> i.valid(),
{
    let v = str_chars(s);
    let t = string_of(trim_vec(v.as_slice()).as_slice());
    parse_rfc3339_utc(t.as_str())
}

/// Zone names accepted in RFC 822 dates (compared in upper case), with
/// their offsets in seconds.
pub open spec fn zone_name_seconds(u: Seq<char>) -> Option<i32> {
    if u == seq!['G', 'M', 'T'] || u == seq!['U', 'T'] || u == seq!['Z'] {
        Some(0i32)
    } else if u == seq!['E', 'S', 'T'] {
        Some(-18000i32)
    } else if u == seq!['E', 'D', 'T'] {
        Some(-14400i32)
    } else if u == seq!['C', 'S', 'T'] {
        Some(-21600i32)
    } else if u == seq!['C', 'D', 'T'] {
        Some(-18000i32)
    } else if u == seq!['M', 'S', 'T'] {
        Some(-25200i32)
    } else if u == seq!['M', 'D', 'T'] {
        Some(-21600i32)
    } else if u == seq!['P', 'S', 'T'] {
        Some(-28800i32)
    } else if u == seq!['P', 'D', 'T'] {
        Some(-25200i32)
    } else {
        None
    }
}

/// A zone: a sign and four digits `HHMM` (minutes at most 59), or a listed
/// name in any case; in seconds east of UTC.
pub open spec fn zone_of(z: Seq<char>) -> Option<i32> {
    if z.len() > 0 && (z[0] == '+' || z[0] == '-') {
        numeric_seconds(z)
    } else {
        zone_name_seconds(upper(z))
    }
}

/// A year of digits only: 4 or more digits as written, 3 digits from 1900,
/// 2 digits pivoting at 50 (00-49 => 2000s, 50-99 => 1900s).
pub open spec fn year_digits_of(t: Seq<char>) -> Option<i32> {
    if all_digits(t) {
        match parse_i32(t) {
            Some(v) => if t.len() >= 4 {
                Some(v)
            } else if t.len() == 3 {
                Some((1900 + v) as i32)
            } else if t.len() == 2 {
                if v < 50 {
                    Some((2000 + v) as i32)
                } else {
                    Some((1900 + v) as i32)
                }
            } else {
                None
            },
            None => None,
        }
    } else {
        None
    }
}

/// The text after the first comma (a day-of-week prefix), or all of it.
pub open spec fn after_comma(s: Seq<char>) -> Seq<char> {
    match find_char(s, ',') {
        Some(i) => s.skip(i + 1),
        None => s,
    }
}

/// The fields of an RFC 822 date: day, month (any case), year, time and a
/// zone, further tokens ignored.
pub open spec fn rfc822_fields_of(s: Seq<char>) -> Option<(i32, u32, u32, u32, u32, u32, i32)> {
    let toks = ws_tokens(after_comma(trim(s)));
    if toks.len() < 5 {
        None
    } else {
        match (parse_u32(toks[0]), month_num(toks[1]), year_digits_of(toks[2]), hms_of(toks[3]), zone_of(toks[4])) {
            (Some(d), Some(m), Some(y), Some((h, mi, sec)), Some(off)) => Some((y, m, d, h, mi, sec, off)),
            _ => None,
        }
    }
}

/// What [`parse_rfc822`] returns.
pub open spec fn tolerant_rfc822_of(s: Seq<char>) -> Option<Instant> {
    match rfc822_fields_of(s) {
        Some((y, m, d, h, mi, sec, off)) => local_to_utc(
            y as int,
            m as int,
            d as int,
            h as int,
            mi as int,
            sec as int,
            off as int,
        ),
        None => None,
    }
}

fn zone_name_exec(u: &[char]) -> (r: Option<i32>)
    ensures
        r == zone_name_seconds(u@),
{
    let gmt: &[char] = &['G', 'M', 'T'];
    let ut: &[char] = &['U', 'T'];
    let zulu: &[char] = &['Z'];
    let est: &[char] = &['E', 'S', 'T'];
    let edt: &[char] = &['E', 'D', 'T'];
    let cst: &[char] = &['C', 'S', 'T'];
    let cdt: &[char] = &['C', 'D', 'T'];
    let mst: &[char] = &['M', 'S', 'T'];
    let mdt: &[char] = &['M', 'D', 'T'];
    let pst: &[char] = &['P', 'S', 'T'];
    let pdt: &[char] = &['P', 'D', 'T'];
    assert(gmt@ == seq!['G', 'M', 'T']);
    assert(ut@ == seq!['U', 'T']);
    assert(zulu@ == seq!['Z']);
    assert(est@ == seq!['E', 'S', 'T']);
    assert(edt@ == seq!['E', 'D', 'T']);
    assert(cst@ == seq!['C', 'S', 'T']);
    assert(cdt@ == seq!['C', 'D', 'T']);
    assert(mst@ == seq!['M', 'S', 'T']);
    assert(mdt@ == seq!['M', 'D', 'T']);
    assert(pst@ == seq!['P', 'S', 'T']);
    assert(pdt@ == seq!['P', 'D', 'T']);
    if eq_chars(u, gmt) || eq_chars(u, ut) || eq_chars(u, zulu) {
        Some(0)
    } else if eq_chars(u, est) {
        Some(-18000)
    } else if eq_chars(u, edt) {
        Some(-14400)
    } else if eq_chars(u, cst) {
        Some(-21600)
    } else if eq_chars(u, cdt) {
        Some(-18000)
    } else if eq_chars(u, mst) {
        Some(-25200)
    } else if eq_chars(u, mdt) {
        Some(-21600)
    } else if eq_chars(u, pst) {
        Some(-28800)
    } else if eq_chars(u, pdt) {
        Some(-25200)
    } else {
        None
    }
}

/// Parse a numeric offset or a listed zone name, in seconds east of UTC.
fn parse_zone(z: &[char]) -> (r: Option<i32>)
    ensures
        r == zone_of(z@),
{
    if z.len() > 0 && (z[0] == '+' || z[0] == '-') {
        numeric_offset_seconds(z)
    } else {
        let u = upper_vec(z);
        zone_name_exec(u.as_slice())
    }
}

/// RFC 2822 year handling.
fn parse_year(t: &[char]) -> (r: Option<i32>)
    ensures
        r == year_digits_of(t@),
{
    if !all_digits_exec(t) {
        return None;
    }
    let v = match parse_i32_exec(t) {
        Some(v) => v,
        None => return None,
    };
    if t.len() >= 4 {
        Some(v)
    } else if t.len() == 3 {
        proof {
            lemma_dec_val_small(t@);
            reveal_with_fuel(pow10, 4);
            assert(crate::strs::unsigned_body(t@) == t@) by {
                assert(crate::strs::is_digit(t@[0]));
            }
        }
        Some(1900 + v)
    } else if t.len() == 2 {
        proof {
            lemma_dec_val_small(t@);
            reveal_with_fuel(pow10, 3);
            assert(crate::strs::unsigned_body(t@) == t@) by {
                assert(crate::strs::is_digit(t@[0]));
            }
        }
        if v < 50 {
            Some(2000 + v)
        } else {
            Some(1900 + v)
        }
    } else {
        None
    }
}

fn rfc822_fields_exec(s: &str) -> (r: Option<(i32, u32, u32, u32, u32, u32, i32)>)
    ensures
        r == rfc822_fields_of(s@),
{
    let v = str_chars(s);
    let t = trim_vec(v.as_slice());
    let rest: Vec<char> = match find_char_exec(t.as_slice(), ',') {
        Some(i) => {
            let n = t.len();
            assert(i < n);
            let r = subvec(t.as_slice(), i + 1, n);
            assert(r@ =~= t@.skip(i + 1));
            r
        },
        None => t,
    };
    assert(rest@ == after_comma(trim(s@)));
    let toks = split_ws(rest.as_slice());
    assert(views(toks@).len() == toks@.len());
    if toks.len() < 5 {
        return None;
    }
    assert(views(toks@)[0] == toks@[0]@);
    assert(views(toks@)[1] == toks@[1]@);
    assert(views(toks@)[2] == toks@[2]@);
    assert(views(toks@)[3] == toks@[3]@);
    assert(views(toks@)[4] == toks@[4]@);
    let day = match parse_u32_exec(toks[0].as_slice()) {
        Some(d) => d,
        None => return None,
    };
    let month = match month_from_abbr(toks[1].as_slice()) {
        Some(m) => m,
        None => return None,
    };
    let year = match parse_year(toks[2].as_slice()) {
        Some(y) => y,
        None => return None,
    };
    let (hour, minute, second) = match parse_hms(toks[3].as_slice()) {
        Some(t) => t,
        None => return None,
    };
    let offset = match parse_zone(toks[4].as_slice()) {
        Some(o) => o,
        None => return None,
    };
    Some((year, month, day, hour, minute, second, offset))
}

/// Parse an RFC 822 / RFC 1123 date (the RSS `pubDate` format), returning it
/// as UTC; `None` for anything that does not parse.
///
/// Accepts an optional leading day-of-week, 2- or 4-digit years, an optional
/// seconds field, numeric offsets like `+0000` / `-0500`, and the listed
/// zone names. A date with an unrecognized or missing zone does not parse.
pub fn parse_rfc822(s: &str) -> (r: Option<Instant>)
    ensures
        r == tolerant_rfc822_of(s@),
        r matches Some(i) ==> i.valid() && i.nanos == 0,
{
    match rfc822_fields_exec(s) {
        Some((y, m, d, h, mi, sec, off)) => utc_from_local(y, m, d, h, mi, sec, off),
        None => None,
    }
}

/// Rounding up never moves an instant backwards, moves it by less than a
/// second, and leaves a whole second unchanged.
pub proof fn law_ceil_second(dt: Instant)
    requires
        dt.valid(),
        dt.nanos < 1_000_000_000,
    ensures
        ceil_second(dt).nanos == 0 || ceil_second(dt) == dt,
        dt.nanos == 0 ==> ceil_second(dt) == dt,
        dt.secs < MAX_SECS ==> ceil_second(dt).secs * 1_000_000_000 >= dt.secs * 1_000_000_000 + dt.nanos,
        ceil_second(dt).secs * 1_000_000_000 < dt.secs * 1_000_000_000 + dt.nanos + 1_000_000_000,
{
}

} // verus!
