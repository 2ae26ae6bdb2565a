//! Date parsing and normalization for the feedhub service.
//!
//! Every stored instant is normalized to UTC at millisecond precision. The
//! text form is RFC 3339 with `Z`; the ordering and range key is epoch
//! milliseconds, so that comparisons are between instants and not texts.
use vstd::prelude::*;
use chrono::TimeZone;
use crate::instant::{civil_secs, valid_hms, valid_ymd, MAX_SECS, MIN_SECS};
use crate::instant::{parse_rfc3339_utc, rfc3339_instant, Instant};
use crate::strs::{
    all_digits, dec_val, eq_chars, find_char, find_char_exec, parse_u32, parse_u32_exec, split_on,
    split_on_exec, split_ws, str_chars, string_of, subvec, trim, trim_vec, utf8_len,
    utf8_longer_than, views, ws_tokens,
};

verus! {

/// `DateTime::trunc_subsecs(3)` of an instant: the nanoseconds below the
/// millisecond dropped. Inside a leap second the subtraction stays inside
/// it, so the whole seconds never change.
pub open spec fn trunc_ms(i: Instant) -> Instant {
    Instant { secs: i.secs, nanos: (i.nanos - i.nanos % 1_000_000) as u32 }
}

/// `DateTime::to_rfc3339_opts(format, true)` of an instant, with whole
/// seconds or with milliseconds.
pub uninterp spec fn rfc3339_z_opts(i: Instant, millis: bool) -> Seq<char>;

/// Normalize an instant to millisecond precision: `DateTime::trunc_subsecs(3)`.
///
/// As the source of `trunc_subsecs` shows, it subtracts the nanoseconds
/// below the millisecond (`nanosecond() % 1_000_000`, which for a leap
/// second is taken of the extended count); `NaiveTime::overflowing_add_signed`
/// keeps such a subtraction inside the leap second. The contract claims that
/// the result is [`trunc_ms`] of the argument.
#[verifier::external_body]
pub fn normalize(dt: Instant) -> (r: Instant)
    requires
        dt.valid(),
    ensures
        r == trunc_ms(dt),
{
    let d = chrono::SubsecRound::trunc_subsecs(chrono::DateTime::from_timestamp(dt.secs, dt.nanos).unwrap(), 3);
    Instant { secs: d.timestamp(), nanos: d.timestamp_subsec_nanos() }
}

/// `DateTime::to_rfc3339_opts` with a `Z` suffix, whole seconds or
/// milliseconds.
#[verifier::external_body]
pub(crate) fn rfc3339_text_opts(dt: Instant, millis: bool) -> (r: String)
    requires
        dt.valid(),
    ensures
        r@ == rfc3339_z_opts(dt, millis),
{
    let d = chrono::DateTime::from_timestamp(dt.secs, dt.nanos).unwrap();
    match millis {
        true => d.to_rfc3339_opts(chrono::SecondsFormat::Millis, true),
        false => d.to_rfc3339_opts(chrono::SecondsFormat::Secs, true),
    }
}

/// The stored text of an instant: whole seconds when it has no millisecond
/// part, milliseconds otherwise.
pub open spec fn stored_text(dt: Instant) -> Seq<char> {
    let n = trunc_ms(dt);
    rfc3339_z_opts(n, n.nanos / 1_000_000 != 0)
}

/// Serialize an instant as RFC 3339 with a `Z` offset.
pub fn format_rfc3339(dt: Instant) -> (r: String)
    requires
        dt.valid(),
    ensures
        r@ == stored_text(dt),
{
    let n = normalize(dt);
    rfc3339_text_opts(n, n.nanos / 1_000_000 != 0)
}

/// The ordering / range key for an instant: epoch milliseconds.
pub fn to_millis(dt: Instant) -> (r: i64)
    requires
        dt.valid(),
    ensures
        r == trunc_ms(dt).millis(),
        r == dt.millis(),
{
    let n = normalize(dt);
    n.secs * 1000 + (n.nanos / 1_000_000) as i64
}

/// What [`parse_rfc3339`] returns.
pub open spec fn rfc3339_of(s: Seq<char>) -> Option<Instant> {
    match rfc3339_instant(trim(s)) {
        Some(i) => Some(trunc_ms(i)),
        None => None,
    }
}

/// Parse an RFC 3339 instant with any numeric offset and optional fractional
/// seconds, normalized to UTC.
pub fn parse_rfc3339(s: &str) -> (r: Option<Instant>)
    ensures
        r == rfc3339_of(s@),
        r matches Some(i) ==> i.valid() && i.nanos % 1_000_000 == 0,
{
    let v = str_chars(s);
    let t = string_of(trim_vec(v.as_slice()).as_slice());
    match parse_rfc3339_utc(t.as_str()) {
        Some(i) => Some(normalize(i)),
        None => None,
    }
}

/// Offsets in seconds of the named zones (case-sensitive).
pub open spec fn zone_seconds(z: Seq<char>) -> Option<i32> {
    if z == seq!['G', 'M', 'T'] || z == seq!['U', 'T'] || z == seq!['U', 'T', 'C'] || z == seq!['Z'] {
        Some(0i32)
    } else if z == seq!['E', 'S', 'T'] {
        Some(-18000i32)
    } else if z == seq!['E', 'D', 'T'] {
        Some(-14400i32)
    } else if z == seq!['C', 'S', 'T'] {
        Some(-21600i32)
    } else if z == seq!['C', 'D', 'T'] {
        Some(-18000i32)
    } else if z == seq!['M', 'S', 'T'] {
        Some(-25200i32)
    } else if z == seq!['M', 'D', 'T'] {
        Some(-21600i32)
    } else if z == seq!['P', 'S', 'T'] {
        Some(-28800i32)
    } else if z == seq!['P', 'D', 'T'] {
        Some(-25200i32)
    } else {
        None
    }
}

fn zone_offset_seconds(zone: &[char]) -> (r: Option<i32>)
    ensures
        r == zone_seconds(zone@),
{
    let gmt: &[char] = &['G', 'M', 'T'];
    let ut: &[char] = &['U', 'T'];
    let utc: &[char] = &['U', 'T', 'C'];
    let zulu: &[char] = &['Z'];
    let est: &[char] = &['E', 'S', 'T'];
    let edt: &[char] = &['E', 'D', 'T'];
    let cst: &[char] = &['C', 'S', 'T'];
    let cdt: &[char] = &['C', 'D', 'T'];
    let mst: &[char] = &['M', 'S', 'T'];
    let mdt: &[char] = &['M', 'D', 'T'];
    let pst: &[char] = &['P', 'S', 'T'];
    let pdt: &[char] = &['P', 'D', 'T'];
    assert(gmt@ == seq!['G', 'M', 'T']);
    assert(ut@ == seq!['U', 'T']);
    assert(utc@ == seq!['U', 'T', 'C']);
    assert(zulu@ == seq!['Z']);
    assert(est@ == seq!['E', 'S', 'T']);
    assert(edt@ == seq!['E', 'D', 'T']);
    assert(cst@ == seq!['C', 'S', 'T']);
    assert(cdt@ == seq!['C', 'D', 'T']);
    assert(mst@ == seq!['M', 'S', 'T']);
    assert(mdt@ == seq!['M', 'D', 'T']);
    assert(pst@ == seq!['P', 'S', 'T']);
    assert(pdt@ == seq!['P', 'D', 'T']);
    if eq_chars(zone, gmt) || eq_chars(zone, ut) || eq_chars(zone, utc) || eq_chars(zone, zulu) {
        Some(0)
    } else if eq_chars(zone, est) {
        Some(-18000)
    } else if eq_chars(zone, edt) {
        Some(-14400)
    } else if eq_chars(zone, cst) {
        Some(-21600)
    } else if eq_chars(zone, cdt) {
        Some(-18000)
    } else if eq_chars(zone, mst) {
        Some(-25200)
    } else if eq_chars(zone, mdt) {
        Some(-21600)
    } else if eq_chars(zone, pst) {
        Some(-28800)
    } else if eq_chars(zone, pdt) {
        Some(-25200)
    } else {
        None
    }
}

/// A numeric offset `+HHMM` / `-HHMM` with minutes at most 59, in seconds.
pub open spec fn numeric_seconds(z: Seq<char>) -> Option<i32> {
    if z.len() == 5 && (z[0] == '+' || z[0] == '-') && all_digits(z.skip(1)) && dec_val(z.subrange(3, 5))
        <= 59 {
        let v = dec_val(z.subrange(1, 3)) * 3600 + dec_val(z.subrange(3, 5)) * 60;
        Some(
            (if z[0] == '-' {
                -v
            } else {
                v
            }) as i32,
        )
    } else {
        None
    }
}

fn two_digits(a: char, b: char) -> (r: i32)
    requires
        '0' <= a <= '9',
        '0' <= b <= '9',
    ensures
        r == dec_val(seq![a, b]),
        0 <= r <= 99,
{
    let x = (a as u32 - '0' as u32) as i32;
    let y = (b as u32 - '0' as u32) as i32;
    proof {
        assert(seq![a, b].drop_last() =~= seq![a]);
        assert(seq![a].drop_last() =~= Seq::<char>::empty());
        assert(dec_val(Seq::<char>::empty()) == 0);
        assert(dec_val(seq![a]) == x);
        assert(dec_val(seq![a, b]) == x * 10 + y);
    }
    x * 10 + y
}

pub(crate) fn numeric_offset_seconds(zone: &[char]) -> (r: Option<i32>)
    ensures
        r == numeric_seconds(zone@),
{
    if zone.len() != 5 || !(zone[0] == '+' || zone[0] == '-') {
        return None;
    }
    let z = zone;
    let digits = '0' <= z[1] && z[1] <= '9' && '0' <= z[2] && z[2] <= '9' && '0' <= z[3] && z[3] <= '9'
        && '0' <= z[4] && z[4] <= '9';
    proof {
        let d = zone@.skip(1);
        if digits {
            assert forall|i: int| 0 <= i < d.len() implies crate::strs::is_digit(#[trigger] d[i]) by {
                assert(d[i] == zone@[i + 1]);
            }
        } else {
            assert(!all_digits(d)) by {
                if all_digits(d) {
                    assert(crate::strs::is_digit(d[0]));
                    assert(crate::strs::is_digit(d[1]));
                    assert(crate::strs::is_digit(d[2]));
                    assert(crate::strs::is_digit(d[3]));
                }
            }
        }
    }
    if !digits {
        return None;
    }
    let hours = two_digits(z[1], z[2]);
    let minutes = two_digits(z[3], z[4]);
    assert(zone@.subrange(1, 3) =~= seq![z[1], z[2]]);
    assert(zone@.subrange(3, 5) =~= seq![z[3], z[4]]);
    if minutes > 59 {
        return None;
    }
    let v = hours * 3600 + minutes * 60;
    if z[0] == '-' {
        Some(-v)
    } else {
        Some(v)
    }
}

/// Month numbers of the three-letter English names (case-sensitive).
pub open spec fn month_of_name(m: Seq<char>) -> Option<u32> {
    if m == seq!['J', 'a', 'n'] {
        Some(1u32)
    } else if m == seq!['F', 'e', 'b'] {
        Some(2u32)
    } else if m == seq!['M', 'a', 'r'] {
        Some(3u32)
    } else if m == seq!['A', 'p', 'r'] {
        Some(4u32)
    } else if m == seq!['M', 'a', 'y'] {
        Some(5u32)
    } else if m == seq!['J', 'u', 'n'] {
        Some(6u32)
    } else if m == seq!['J', 'u', 'l'] {
        Some(7u32)
    } else if m == seq!['A', 'u', 'g'] {
        Some(8u32)
    } else if m == seq!['S', 'e', 'p'] {
        Some(9u32)
    } else if m == seq!['O', 'c', 't'] {
        Some(10u32)
    } else if m == seq!['N', 'o', 'v'] {
        Some(11u32)
    } else if m == seq!['D', 'e', 'c'] {
        Some(12u32)
    } else {
        None
    }
}

fn month_number(name: &[char]) -> (r: Option<u32>)
    ensures
        r == month_of_name(name@),
{
    let names: [&[char]; 12] = [
        &['J', 'a', 'n'],
        &['F', 'e', 'b'],
        &['M', 'a', 'r'],
        &['A', 'p', 'r'],
        &['M', 'a', 'y'],
        &['J', 'u', 'n'],
        &['J', 'u', 'l'],
        &['A', 'u', 'g'],
        &['S', 'e', 'p'],
        &['O', 'c', 't'],
        &['N', 'o', 'v'],
        &['D', 'e', 'c'],
    ];
    assert(names[0]@ == seq!['J', 'a', 'n']);
    assert(names[1]@ == seq!['F', 'e', 'b']);
    assert(names[2]@ == seq!['M', 'a', 'r']);
    assert(names[3]@ == seq!['A', 'p', 'r']);
    assert(names[4]@ == seq!['M', 'a', 'y']);
    assert(names[5]@ == seq!['J', 'u', 'n']);
    assert(names[6]@ == seq!['J', 'u', 'l']);
    assert(names[7]@ == seq!['A', 'u', 'g']);
    assert(names[8]@ == seq!['S', 'e', 'p']);
    assert(names[9]@ == seq!['O', 'c', 't']);
    assert(names[10]@ == seq!['N', 'o', 'v']);
    assert(names[11]@ == seq!['D', 'e', 'c']);
    if eq_chars(name, names[0]) {
        Some(1)
    } else if eq_chars(name, names[1]) {
        Some(2)
    } else if eq_chars(name, names[2]) {
        Some(3)
    } else if eq_chars(name, names[3]) {
        Some(4)
    } else if eq_chars(name, names[4]) {
        Some(5)
    } else if eq_chars(name, names[5]) {
        Some(6)
    } else if eq_chars(name, names[6]) {
        Some(7)
    } else if eq_chars(name, names[7]) {
        Some(8)
    } else if eq_chars(name, names[8]) {
        Some(9)
    } else if eq_chars(name, names[9]) {
        Some(10)
    } else if eq_chars(name, names[10]) {
        Some(11)
    } else if eq_chars(name, names[11]) {
        Some(12)
    } else {
        None
    }
}

/// A year of 4 digits; 3 digits count from 1900; 2 digits pivot at 50
/// (50-99 => 1900s, 00-49 => 2000s); anything else is refused.
pub open spec fn year_of_digits(raw: Seq<char>) -> Option<i32> {
    if raw.len() >= 2 && raw.len() <= 4 && all_digits(raw) {
        let n = dec_val(raw);
        if raw.len() == 4 {
            Some(n as i32)
        } else if raw.len() == 3 {
            Some((1900 + n) as i32)
        } else if n >= 50 {
            Some((1900 + n) as i32)
        } else {
            Some((2000 + n) as i32)
        }
    } else {
        None
    }
}

pub open spec fn pow10(n: nat) -> int
    decreases n,
{
    if n == 0 {
        1
    } else {
        10 * pow10((n - 1) as nat)
    }
}

pub proof fn lemma_dec_val_small(s: Seq<char>)
    requires
        all_digits(s),
    ensures
        0 <= dec_val(s) < pow10(s.len()),
    decreases s.len(),
{
    if s.len() > 0 {
        assert(all_digits(s.drop_last())) by {
            assert forall|i: int| 0 <= i < s.drop_last().len() implies crate::strs::is_digit(
                #[trigger] s.drop_last()[i],
            ) by {
                assert(s.drop_last()[i] == s[i]);
            }
        }
        lemma_dec_val_small(s.drop_last());
        assert(crate::strs::is_digit(s[s.len() - 1]));
    }
}

fn expand_year(raw: &[char]) -> (r: Option<i32>)
    ensures
        r == year_of_digits(raw@),
{
    if raw.len() < 2 || raw.len() > 4 || !crate::strs::all_digits_exec(raw) {
        return None;
    }
    proof {
        lemma_dec_val_small(raw@);
        reveal_with_fuel(pow10, 5);
    }
    let n = match parse_u32_exec(raw) {
        Some(n) => n as i32,
        None => {
            assert(parse_u32(raw@) is Some) by {
                assert(crate::strs::unsigned_body(raw@) == raw@) by {
                    assert(crate::strs::is_digit(raw@[0]));
                }
            }
            return None;
        },
    };
    assert(crate::strs::unsigned_body(raw@) == raw@) by {
        assert(crate::strs::is_digit(raw@[0]));
    }
    if raw.len() == 4 {
        Some(n)
    } else if raw.len() == 3 {
        Some(1900 + n)
    } else if n >= 50 {
        Some(1900 + n)
    } else {
        Some(2000 + n)
    }
}

/// The UTC instant of a wall-clock time `off` seconds east of UTC, or `None`
/// when the date or time is invalid, the offset is a day or more, or the
/// instant is out of range.
pub open spec fn local_to_utc(y: int, m: int, d: int, h: int, mi: int, s: int, off: int) -> Option<Instant> {
    if valid_ymd(y, m, d) && valid_hms(h, mi, s) && -86400 < off < 86400 {
        let t = civil_secs(y, m, d, h, mi, s) - off;
        if MIN_SECS <= t <= MAX_SECS {
            Some(Instant { secs: t as i64, nanos: 0 })
        } else {
            None
        }
    } else {
        None
    }
}

/// `NaiveDate::from_ymd_opt(..)?.and_hms_opt(..)?`, then
/// `FixedOffset::east_opt(off)?.from_local_datetime(..).single()`, in UTC.
/// The contract claims that these accept exactly the valid dates, the times
/// with hour < 24, minute < 60 and second < 60, offsets of less than a day
/// (as `east_opt`'s source shows) and results within the calendar's range
/// (`checked_sub_offset`), with the usual proleptic Gregorian count.
#[verifier::external_body]
pub(crate) fn utc_from_local(y: i32, m: u32, d: u32, h: u32, mi: u32, s: u32, off: i32) -> (r: Option<Instant>)
    ensures
        r == local_to_utc(y as int, m as int, d as int, h as int, mi as int, s as int, off as int),
{
    let naive = chrono::NaiveDate::from_ymd_opt(y, m, d)?.and_hms_opt(h, mi, s)?;
    let local = chrono::FixedOffset::east_opt(off)?.from_local_datetime(&naive).single()?;
    let utc = local.with_timezone(&chrono::Utc);
    Some(Instant { secs: utc.timestamp(), nanos: utc.timestamp_subsec_nanos() })
}

/// The text after a day-of-week prefix: a first comma at byte index at most
/// 3 is dropped with what precedes it, and the rest trimmed.
pub open spec fn after_weekday(s: Seq<char>) -> Seq<char> {
    match find_char(s, ',') {
        Some(i) => if utf8_len(s.take(i)) <= 3 {
            trim(s.skip(i + 1))
        } else {
            s
        },
        None => s,
    }
}

/// `HH:MM` or `HH:MM:SS`, each part a `u32`; no fourth part.
pub open spec fn hms_of(t: Seq<char>) -> Option<(u32, u32, u32)> {
    let p = split_on(t, ':');
    if p.len() < 2 || p.len() > 3 {
        None
    } else {
        match (
            parse_u32(p[0]),
            parse_u32(p[1]),
            if p.len() == 3 {
                parse_u32(p[2])
            } else {
                Some(0u32)
            },
        ) {
            (Some(h), Some(m), Some(s)) => Some((h, m, s)),
            _ => None,
        }
    }
}

/// A numeric offset, else a named zone, in seconds east of UTC.
pub open spec fn zone_value(z: Seq<char>) -> Option<i32> {
    match numeric_seconds(z) {
        Some(v) => Some(v),
        None => zone_seconds(z),
    }
}

/// The fields of an RFC 822 date: year, month, day, hour, minute, second
/// (a leap second read as `:59`) and offset in seconds; a missing zone is
/// GMT.
pub open spec fn rfc822_parts(s: Seq<char>) -> Option<(i32, u32, u32, u32, u32, u32, i32)> {
    let toks = ws_tokens(after_weekday(trim(s)));
    if toks.len() < 4 || toks.len() > 5 {
        None
    } else {
        let zone = if toks.len() == 5 {
            toks[4]
        } else {
            seq!['G', 'M', 'T']
        };
        match (
            parse_u32(toks[0]),
            month_of_name(toks[1]),
            year_of_digits(toks[2]),
            hms_of(toks[3]),
            zone_value(zone),
        ) {
            (Some(d), Some(m), Some(y), Some((h, mi, sec)), Some(off)) => Some(
                (
                    y,
                    m,
                    d,
                    h,
                    mi,
                    if sec == 60 {
                        59u32
                    } else {
                        sec
                    },
                    off,
                ),
            ),
            _ => None,
        }
    }
}

/// What [`parse_rfc822`] returns.
pub open spec fn rfc822_of(s: Seq<char>) -> Option<Instant> {
    match rfc822_parts(s) {
        Some((y, m, d, h, mi, sec, off)) => local_to_utc(
            y as int,
            m as int,
            d as int,
            h as int,
            mi as int,
            sec as int,
            off as int,
        ),
        None => None,
    }
}

pub(crate) fn parse_hms(t: &[char]) -> (r: Option<(u32, u32, u32)>)
    ensures
        r == hms_of(t@),
{
    let parts = split_on_exec(t, ':');
    assert(views(parts@).len() == parts@.len());
    if parts.len() < 2 || parts.len() > 3 {
        return None;
    }
    assert(views(parts@)[0] == parts@[0]@);
    assert(views(parts@)[1] == parts@[1]@);
    let hour = match parse_u32_exec(parts[0].as_slice()) {
        Some(h) => h,
        None => return None,
    };
    let minute = match parse_u32_exec(parts[1].as_slice()) {
        Some(m) => m,
        None => return None,
    };
    let second = if parts.len() == 3 {
        assert(views(parts@)[2] == parts@[2]@);
        match parse_u32_exec(parts[2].as_slice()) {
            Some(s) => s,
            None => return None,
        }
    } else {
        0
    };
    Some((hour, minute, second))
}

fn strip_weekday(t: Vec<char>) -> (r: Vec<char>)
    ensures
        r@ == after_weekday(t@),
{
    let n = t.len();
    match find_char_exec(t.as_slice(), ',') {
        Some(i) => {
            assert(i < n);
            let head = subvec(t.as_slice(), 0, i);
            assert(head@ =~= t@.take(i as int));
            if !utf8_longer_than(head.as_slice(), 3) {
                let tail = subvec(t.as_slice(), i + 1, n);
                assert(tail@ =~= t@.skip(i + 1));
                trim_vec(tail.as_slice())
            } else {
                t
            }
        },
        None => t,
    }
}

fn rfc822_parts_exec(s: &str) -> (r: Option<(i32, u32, u32, u32, u32, u32, i32)>)
    ensures
        r == rfc822_parts(s@),
{
    let v = str_chars(s);
    let rest = strip_weekday(trim_vec(v.as_slice()));
    let toks = split_ws(rest.as_slice());
    assert(views(toks@).len() == toks@.len());
    if toks.len() < 4 || toks.len() > 5 {
        return None;
    }
    assert(views(toks@)[0] == toks@[0]@);
    assert(views(toks@)[1] == toks@[1]@);
    assert(views(toks@)[2] == toks@[2]@);
    assert(views(toks@)[3] == toks@[3]@);
    let gmt: Vec<char> = vec!['G', 'M', 'T'];
    let zone: &[char] = if toks.len() == 5 {
        assert(views(toks@)[4] == toks@[4]@);
        toks[4].as_slice()
    } else {
        assert(gmt@ =~= seq!['G', 'M', 'T']);
        gmt.as_slice()
    };
    let day = match parse_u32_exec(toks[0].as_slice()) {
        Some(d) => d,
        None => return None,
    };
    let month = match month_number(toks[1].as_slice()) {
        Some(m) => m,
        None => return None,
    };
    let year = match expand_year(toks[2].as_slice()) {
        Some(y) => y,
        None => return None,
    };
    let (hour, minute, second) = match parse_hms(toks[3].as_slice()) {
        Some(t) => t,
        None => return None,
    };
    let second = if second == 60 {
        59
    } else {
        second
    };
    let offset = match numeric_offset_seconds(zone) {
        Some(o) => o,
        None => match zone_offset_seconds(zone) {
            Some(o) => o,
            None => return None,
        },
    };
    Some((year, month, day, hour, minute, second, offset))
}

/// Parse an RFC 822 / RFC 1123 date as used by RSS `<pubDate>`, normalized
/// to UTC.
pub fn parse_rfc822(s: &str) -> (r: Option<Instant>)
    ensures
        r == rfc822_of(s@),
        r matches Some(i) ==> i.valid() && i.nanos == 0,
{
    match rfc822_parts_exec(s) {
        Some((y, m, d, h, mi, sec, off)) => match utc_from_local(y, m, d, h, mi, sec, off) {
            Some(i) => Some(normalize(i)),
            None => None,
        },
        None => None,
    }
}

/// What [`parse_feed_date`] returns: RFC 3339 first, then RFC 822, on the
/// trimmed text; `None` for blank text.
pub open spec fn feed_date_of(s: Seq<char>) -> Option<Instant> {
    let t = trim(s);
    if t.len() == 0 {
        None
    } else if rfc3339_of(t) is Some {
        rfc3339_of(t)
    } else {
        rfc822_of(t)
    }
}

/// Parse a feed date, trying RFC 3339 first and then RFC 822. Unparseable
/// text gives `None`; no other instant is ever substituted.
pub fn parse_feed_date(s: &str) -> (r: Option<Instant>)
    ensures
        r == feed_date_of(s@),
        r matches Some(i) ==> i.valid() && i.nanos % 1_000_000 == 0,
{
    let v = str_chars(s);
    let t = trim_vec(v.as_slice());
    if t.len() == 0 {
        return None;
    }
    let text = string_of(t.as_slice());
    match parse_rfc3339(text.as_str()) {
        Some(i) => Some(i),
        None => parse_rfc822(text.as_str()),
    }
}

/// A leading day-of-week is optional: a comma-free name of at most three
/// bytes and a comma before a comma-free date leave its fields unchanged.
pub proof fn law_dayname_optional(w: Seq<char>, s: Seq<char>)
    requires
        find_char(w, ',') is None,
        utf8_len(w) <= 3,
        find_char(s, ',') is None,
        trim(w + seq![','] + s) == w + seq![','] + s,
    ensures
        rfc822_parts(w + seq![','] + s) == rfc822_parts(s),
{
    let t = w + seq![','] + s;
    crate::strs::lemma_find_char_some(w, ',');
    assert forall|k: int| 0 <= k < w.len() implies t[k] != ',' by {
        assert(t[k] == w[k]);
    }
    crate::strs::lemma_find_char(t, ',', w.len() as int);
    assert(t.take(w.len() as int) =~= w);
    assert(t.skip(w.len() as int + 1) =~= s);
    crate::strs::lemma_find_char_some(s, ',');
    let ts = trim(s);
    crate::strs::lemma_lead_ws_bound(s);
    crate::strs::lemma_trail_ws_bound(crate::strs::trim_start(s));
    assert forall|k: int| 0 <= k < ts.len() implies ts[k] != ',' by {
        assert(ts[k] == s[k + crate::strs::lead_ws(s)]);
    }
    crate::strs::lemma_find_char_some(ts, ',');
    if find_char(ts, ',') is Some {
        let i = find_char(ts, ',')->0;
        assert(ts[i] == ',');
    }
}

} // verus!
