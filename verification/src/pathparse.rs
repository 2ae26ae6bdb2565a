//! RSS 2.0 and Atom parsing by element path.
//!
//! One event loop tracks the path of open elements, so `<title>` under
//! `<channel>` and `<title>` under `<item>` are never confused: only
//! `rss/channel/item` (RSS) and `feed/entry` (Atom) open items, and only
//! their direct children supply fields. Plain text is trimmed at the edges
//! of a field while CDATA and resolved references are kept exactly;
//! references that nothing defines are kept as written. A document that
//! ends inside an element is malformed.
use vstd::prelude::*;
use vstd::utf8::{decode_utf8, valid_utf8};
use crate::feed::{strip_bom, without_bom, Format};
use crate::instant::Instant;
use crate::model::{parsed_entries_view, ParsedEntry, ParsedEntryV};
use crate::onepass::{unclosed, unclosed_text, ParsedFeed, ParsedFeedV};
use crate::parser::{local_name, local_of, non_empty, or_else, utf8_text};
use crate::storedate::{parse_rfc3339, parse_rfc822, plain_rfc3339_of, tolerant_rfc822_of};
use crate::strs::{eq_chars, is_blank, lead_ws_exec, push_chars, push_str, str_chars, string_of, subvec, trail_ws_exec, trim_end, trim_start};
use crate::text::{opt_view, untitled, untitled_text};
use crate::xml::{
    attr_items_view, char_ref, events_view, html5_entity, lemma_name_boundary, name_leads, names_lead, read_events, utf8_len, resolve_html5, resolve_reference,
    tag_attribute_items, tag_attributes_unescaped, xml_events, AttrItem, AttrItemV, XmlEv, XmlEvent,
};

verus! {

/// Why a document could not be read as a feed.
#[derive(Clone, Debug, PartialEq, Eq)]
pub enum ParseError {
    /// The bytes were not valid UTF-8.
    Encoding,
    /// The XML itself is broken.
    Xml(String),
    /// Well-formed XML, but not an RSS or Atom document.
    UnsupportedFormat,
}

pub enum ParseErrorV {
    Encoding,
    Xml(Seq<char>),
    UnsupportedFormat,
}

impl View for ParseError {
    type V = ParseErrorV;

    open spec fn view(&self) -> ParseErrorV {
        match self {
            ParseError::Encoding => ParseErrorV::Encoding,
            ParseError::Xml(m) => ParseErrorV::Xml(m@),
            ParseError::UnsupportedFormat => ParseErrorV::UnsupportedFormat,
        }
    }
}

pub open spec fn result_view(r: Result<ParsedFeed, ParseError>) -> Result<ParsedFeedV, ParseErrorV> {
    match r {
        Ok(f) => Ok(f@),
        Err(e) => Err(e@),
    }
}

/// Which element's text is being collected.
#[derive(Clone, Copy, Debug, PartialEq, Eq, Structural)]
pub enum PField {
    FeedTitle,
    Guid,
    Title,
    Link,
    Summary,
    Content,
    Published,
    Updated,
    PubDate,
}

// ---------------------------------------------------------------- text

/// Plain text of a text node with XML 1.0 line ends normalized: `\r\n` and
/// a lone `\r` become `\n` (what `BytesText::xml10_content` returns).
pub open spec fn xml10_eols(s: Seq<char>) -> Seq<char>
    decreases s.len(),
{
    if s.len() == 0 {
        s
    } else if s[0] == '\r' {
        if s.len() > 1 && s[1] == '\n' {
            seq!['\n'] + xml10_eols(s.skip(2))
        } else {
            seq!['\n'] + xml10_eols(s.skip(1))
        }
    } else {
        seq![s[0]] + xml10_eols(s.skip(1))
    }
}

/// Leading plain segments lose their leading whitespace, up to the first
/// verbatim segment or the first one that keeps some text.
pub open spec fn lead_loop(segs: Seq<(bool, Seq<char>)>, i: int) -> Seq<(bool, Seq<char>)>
    decreases segs.len() - i,
{
    if 0 <= i < segs.len() && !segs[i].0 {
        let t = trim_start(segs[i].1);
        let s2 = segs.update(i, (false, t));
        if t.len() > 0 {
            s2
        } else {
            lead_loop(s2, i + 1)
        }
    } else {
        segs
    }
}

/// Trailing plain segments lose their trailing whitespace, back to the last
/// verbatim segment or the last one that keeps some text.
pub open spec fn trail_loop(segs: Seq<(bool, Seq<char>)>, j: int) -> Seq<(bool, Seq<char>)>
    decreases j,
{
    if 0 < j <= segs.len() && !segs[j - 1].0 {
        let t = trim_end(segs[j - 1].1);
        let s2 = segs.update(j - 1, (false, t));
        if t.len() > 0 {
            s2
        } else {
            trail_loop(s2, j - 1)
        }
    } else {
        segs
    }
}

pub open spec fn concat_segs(segs: Seq<(bool, Seq<char>)>) -> Seq<char>
    decreases segs.len(),
{
    if segs.len() == 0 {
        Seq::empty()
    } else {
        concat_segs(segs.drop_last()) + segs.last().1
    }
}

/// The text of a field: its segments joined, whitespace trimmed only where
/// it came from plain text at either edge.
pub open spec fn finish_text(segs: Seq<(bool, Seq<char>)>) -> Seq<char> {
    let l = lead_loop(segs, 0);
    concat_segs(trail_loop(l, l.len() as int))
}

/// The replacement of a general reference: a character reference (an
/// invalid one is an error), else an HTML5 named entity, else the reference
/// as written.
pub open spec fn ref_text(name: Seq<char>) -> Result<Seq<char>, Seq<char>> {
    if name.len() > 0 && name[0] == '#' {
        match char_ref(name) {
            Some(c) => Ok(seq![c]),
            None => Err("invalid character reference &"@ + name + seq![';']),
        }
    } else {
        match html5_entity(name) {
            Some(x) => Ok(x),
            None => Ok(seq!['&'] + name + seq![';']),
        }
    }
}

// ---------------------------------------------------------------- items

pub struct BufV {
    pub guid: Option<Seq<char>>,
    pub title: Option<Seq<char>>,
    pub link: Option<Seq<char>>,
    pub alternate_link: Option<Seq<char>>,
    pub first_link: Option<Seq<char>>,
    pub summary: Option<Seq<char>>,
    pub content: Option<Seq<char>>,
    pub published: Option<Seq<char>>,
    pub updated: Option<Seq<char>>,
    pub pub_date: Option<Seq<char>>,
}

pub open spec fn empty_buf() -> BufV {
    BufV {
        guid: None,
        title: None,
        link: None,
        alternate_link: None,
        first_link: None,
        summary: None,
        content: None,
        published: None,
        updated: None,
        pub_date: None,
    }
}

pub open spec fn date_or(a: Option<Instant>, b: Option<Instant>) -> Option<Instant> {
    if a is Some {
        a
    } else {
        b
    }
}

pub open spec fn rfc3339_opt(t: Option<Seq<char>>) -> Option<Instant> {
    match t {
        Some(x) => plain_rfc3339_of(x),
        None => None,
    }
}

/// The entry an item becomes; `None` when it has no identity (RSS `guid`,
/// else the link; Atom `id`, else the link).
pub open spec fn into_entry_of(b: BufV, format: Format) -> Option<ParsedEntryV> {
    let link = match format {
        Format::Rss => b.link,
        Format::Atom => or_else(b.alternate_link, b.first_link),
    };
    let summary = match format {
        Format::Rss => b.summary,
        Format::Atom => or_else(b.summary, b.content),
    };
    let published_at = match format {
        Format::Rss => match b.pub_date {
            Some(d) => tolerant_rfc822_of(d),
            None => None,
        },
        Format::Atom => date_or(rfc3339_opt(b.published), rfc3339_opt(b.updated)),
    };
    match or_else(non_empty(b.guid), non_empty(link)) {
        None => None,
        Some(guid) => Some(
            ParsedEntryV {
                guid,
                title: match non_empty(b.title) {
                    Some(t) => t,
                    None => untitled_text(),
                },
                link: non_empty(link),
                summary: non_empty(summary),
                published_at,
            },
        ),
    }
}

pub open spec fn first_wins(slot: Option<Seq<char>>, v: Seq<char>) -> Option<Seq<char>> {
    if slot is None {
        Some(v)
    } else {
        slot
    }
}

pub open spec fn set_slot(b: BufV, f: PField, v: Seq<char>) -> BufV {
    match f {
        PField::Guid => BufV { guid: first_wins(b.guid, v), ..b },
        PField::Title => BufV { title: first_wins(b.title, v), ..b },
        PField::Link => BufV { link: first_wins(b.link, v), ..b },
        PField::Summary => BufV { summary: first_wins(b.summary, v), ..b },
        PField::Content => BufV { content: first_wins(b.content, v), ..b },
        PField::Published => BufV { published: first_wins(b.published, v), ..b },
        PField::Updated => BufV { updated: first_wins(b.updated, v), ..b },
        PField::PubDate => BufV { pub_date: first_wins(b.pub_date, v), ..b },
        PField::FeedTitle => b,
    }
}

/// The `rel` and `href` of an Atom link, scanning its attributes in order:
/// a malformed attribute or a value that does not normalize is an error.
pub open spec fn link_scan(a: Seq<AttrItemV>, rel: Option<Seq<char>>, href: Option<Seq<char>>) -> Result<
    (Option<Seq<char>>, Option<Seq<char>>),
    Seq<char>,
>
    decreases a.len(),
{
    if a.len() == 0 {
        Ok((rel, href))
    } else {
        match a[0] {
            Err(m) => Err(m),
            Ok((_, Err(m))) => Err(m),
            Ok((k, Ok(v))) => if local_of(k) == seq!['h', 'r', 'e', 'f'] {
                link_scan(a.drop_first(), rel, Some(v))
            } else if local_of(k) == seq!['r', 'e', 'l'] {
                link_scan(a.drop_first(), Some(v), href)
            } else {
                link_scan(a.drop_first(), rel, href)
            },
        }
    }
}

/// Record an Atom link: the first link of any relation, and the first
/// `rel="alternate"` one (`rel` defaults to `alternate`).
pub open spec fn record_link_of(b: BufV, attrs: Seq<AttrItemV>) -> Result<BufV, Seq<char>> {
    match link_scan(attrs, None, None) {
        Err(m) => Err(m),
        Ok((rel, href)) => match non_empty(href) {
            None => Ok(b),
            Some(h) => {
                let b1 = if b.first_link is None {
                    BufV { first_link: Some(h), ..b }
                } else {
                    b
                };
                let alternate = match rel {
                    Some(r) => r == seq!['a', 'l', 't', 'e', 'r', 'n', 'a', 't', 'e'],
                    None => true,
                };
                Ok(
                    if alternate && b1.alternate_link is None {
                        BufV { alternate_link: Some(h), ..b1 }
                    } else {
                        b1
                    },
                )
            },
        },
    }
}

// ---------------------------------------------------------------- state

pub struct AccumV {
    pub field: PField,
    /// Path length at which the field's element opened.
    pub depth: int,
    /// Text segments, each marked verbatim or plain.
    pub segs: Seq<(bool, Seq<char>)>,
}

pub struct PhStateV {
    pub path: Seq<Seq<char>>,
    pub format: Option<Format>,
    pub title: Option<Seq<char>>,
    pub entries: Seq<ParsedEntryV>,
    pub item: Option<BufV>,
    pub accum: Option<AccumV>,
}

pub open spec fn ph_initial() -> PhStateV {
    PhStateV { path: Seq::empty(), format: None, title: None, entries: Seq::empty(), item: None, accum: None }
}

/// Begin collecting text; a field already in progress wins.
pub open spec fn start_field_of(s: PhStateV, f: PField, depth: int) -> PhStateV {
    if s.accum is None {
        PhStateV { accum: Some(AccumV { field: f, depth, segs: Seq::empty() }), ..s }
    } else {
        s
    }
}

pub open spec fn rss_field(name: Seq<char>) -> Option<PField> {
    if name == seq!['t', 'i', 't', 'l', 'e'] {
        Some(PField::Title)
    } else if name == seq!['l', 'i', 'n', 'k'] {
        Some(PField::Link)
    } else if name == seq!['d', 'e', 's', 'c', 'r', 'i', 'p', 't', 'i', 'o', 'n'] {
        Some(PField::Summary)
    } else if name == seq!['g', 'u', 'i', 'd'] {
        Some(PField::Guid)
    } else if name == seq!['p', 'u', 'b', 'D', 'a', 't', 'e'] {
        Some(PField::PubDate)
    } else {
        None
    }
}

pub open spec fn atom_field(name: Seq<char>) -> Option<PField> {
    if name == seq!['t', 'i', 't', 'l', 'e'] {
        Some(PField::Title)
    } else if name == seq!['i', 'd'] {
        Some(PField::Guid)
    } else if name == seq!['s', 'u', 'm', 'm', 'a', 'r', 'y'] {
        Some(PField::Summary)
    } else if name == seq!['c', 'o', 'n', 't', 'e', 'n', 't'] {
        Some(PField::Content)
    } else if name == seq!['p', 'u', 'b', 'l', 'i', 's', 'h', 'e', 'd'] {
        Some(PField::Published)
    } else if name == seq!['u', 'p', 'd', 'a', 't', 'e', 'd'] {
        Some(PField::Updated)
    } else {
        None
    }
}

/// An element opens in an RSS document (the path already holds it).
pub open spec fn rss_start_of(s: PhStateV) -> PhStateV {
    let p = s.path;
    if p.len() == 3 && p[1] == seq!['c', 'h', 'a', 'n', 'n', 'e', 'l'] {
        if p[2] == seq!['i', 't', 'e', 'm'] {
            PhStateV { item: Some(empty_buf()), ..s }
        } else if p[2] == seq!['t', 'i', 't', 'l', 'e'] {
            start_field_of(s, PField::FeedTitle, 3)
        } else {
            s
        }
    } else if p.len() == 4 && p[1] == seq!['c', 'h', 'a', 'n', 'n', 'e', 'l'] && p[2] == seq!['i', 't', 'e', 'm'] {
        match rss_field(p[3]) {
            Some(f) => start_field_of(s, f, 4),
            None => s,
        }
    } else {
        s
    }
}

/// An element opens in an Atom document (the path already holds it).
pub open spec fn atom_start_of(s: PhStateV, attrs: Seq<AttrItemV>) -> Result<PhStateV, ParseErrorV> {
    let p = s.path;
    if p.len() == 2 {
        if p[1] == seq!['e', 'n', 't', 'r', 'y'] {
            Ok(PhStateV { item: Some(empty_buf()), ..s })
        } else if p[1] == seq!['t', 'i', 't', 'l', 'e'] {
            Ok(start_field_of(s, PField::FeedTitle, 2))
        } else {
            Ok(s)
        }
    } else if p.len() == 3 && p[1] == seq!['e', 'n', 't', 'r', 'y'] {
        if p[2] == seq!['l', 'i', 'n', 'k'] {
            match s.item {
                Some(b) => match record_link_of(b, attrs) {
                    Ok(b1) => Ok(PhStateV { item: Some(b1), ..s }),
                    Err(m) => Err(ParseErrorV::Xml(m)),
                },
                None => Ok(s),
            }
        } else {
            match atom_field(p[2]) {
                Some(f) => Ok(start_field_of(s, f, 3)),
                None => Ok(s),
            }
        }
    } else {
        Ok(s)
    }
}

/// An element starts: the root picks the dialect for the whole document.
pub open spec fn ph_start_of(st: PhStateV, q: Seq<char>, attrs: Seq<AttrItemV>) -> Result<PhStateV, ParseErrorV> {
    let s = PhStateV { path: st.path.push(local_of(q)), ..st };
    match st.format {
        None => if s.path[0] == seq!['r', 's', 's'] {
            Ok(PhStateV { format: Some(Format::Rss), ..s })
        } else if s.path[0] == seq!['f', 'e', 'e', 'd'] {
            Ok(PhStateV { format: Some(Format::Atom), ..s })
        } else {
            Err(ParseErrorV::UnsupportedFormat)
        },
        Some(Format::Rss) => Ok(rss_start_of(s)),
        Some(Format::Atom) => atom_start_of(s, attrs),
    }
}

/// A completed field's text is stored: the feed title once, or an item
/// field (the first occurrence wins).
pub open spec fn store_field_of(s: PhStateV, f: PField, v: Seq<char>) -> PhStateV {
    match f {
        PField::FeedTitle => if s.title is None {
            PhStateV { title: non_empty(Some(v)), ..s }
        } else {
            s
        },
        _ => match s.item {
            Some(b) => PhStateV { item: Some(set_slot(b, f, v)), ..s },
            None => s,
        },
    }
}

pub open spec fn item_name(f: Format) -> Seq<char> {
    match f {
        Format::Rss => seq!['i', 't', 'e', 'm'],
        Format::Atom => seq!['e', 'n', 't', 'r', 'y'],
    }
}

/// Path length of the element that contains items, after the item itself
/// has closed: `rss/channel` or `feed`.
pub open spec fn item_parent_depth(f: Format) -> int {
    match f {
        Format::Rss => 2,
        Format::Atom => 1,
    }
}

/// An element ends: a field opened at this depth is stored, and an item at
/// its place in the document is finished (kept when it has an identity).
pub open spec fn ph_end_of(st: PhStateV) -> PhStateV {
    let depth = st.path.len() as int;
    let s1 = if depth > 0 {
        PhStateV { path: st.path.drop_last(), ..st }
    } else {
        st
    };
    let s2 = match st.accum {
        Some(a) => if a.depth == depth {
            store_field_of(PhStateV { accum: None, ..s1 }, a.field, finish_text(a.segs))
        } else {
            s1
        },
        None => s1,
    };
    match st.format {
        Some(f) => if depth > 0 && st.path.last() == item_name(f) && s2.path.len() == item_parent_depth(f) {
            match s2.item {
                Some(b) => match into_entry_of(b, f) {
                    Some(e) => PhStateV { item: None, entries: s2.entries.push(e), ..s2 },
                    None => PhStateV { item: None, ..s2 },
                },
                None => s2,
            }
        } else {
            s2
        },
        None => s2,
    }
}

pub open spec fn push_seg(st: PhStateV, verbatim: bool, t: Seq<char>) -> PhStateV {
    match st.accum {
        Some(a) => PhStateV { accum: Some(AccumV { segs: a.segs.push((verbatim, t)), ..a }), ..st },
        None => st,
    }
}

pub open spec fn ph_attrs_of(q: Seq<char>, content: Seq<char>) -> Seq<AttrItemV> {
    tag_attribute_items(content, (vstd::utf8::encode_utf8(q).len() as usize) as int)
}

pub enum PhStepV {
    Next(PhStateV),
    Done(PhStateV),
    Fail(ParseErrorV),
}

/// One event of the parse; an empty element is read as its start and end,
/// and a document that ends inside an element is malformed.
pub open spec fn ph_step(st: PhStateV, ev: XmlEv) -> PhStepV {
    match ev {
        XmlEv::Error(m) => PhStepV::Fail(ParseErrorV::Xml(m)),
        XmlEv::Eof => if st.path.len() > 0 {
            PhStepV::Fail(ParseErrorV::Xml(unclosed_text(st.path.last())))
        } else {
            PhStepV::Done(st)
        },
        XmlEv::Start(q, c) => match ph_start_of(st, q, ph_attrs_of(q, c)) {
            Ok(s) => PhStepV::Next(s),
            Err(e) => PhStepV::Fail(e),
        },
        XmlEv::Empty(q, c) => match ph_start_of(st, q, ph_attrs_of(q, c)) {
            Ok(s) => PhStepV::Next(ph_end_of(s)),
            Err(e) => PhStepV::Fail(e),
        },
        XmlEv::End(_) => PhStepV::Next(ph_end_of(st)),
        XmlEv::Text(t) => PhStepV::Next(push_seg(st, false, xml10_eols(t))),
        XmlEv::CData(t) => PhStepV::Next(push_seg(st, true, t)),
        XmlEv::Ref(r) => if st.accum is Some {
            match ref_text(r) {
                Ok(x) => PhStepV::Next(push_seg(st, true, x)),
                Err(m) => PhStepV::Fail(ParseErrorV::Xml(m)),
            }
        } else {
            PhStepV::Next(st)
        },
        XmlEv::Other => PhStepV::Next(st),
    }
}

pub enum PhRunV {
    Going(PhStateV),
    Done(PhStateV),
    Failed(ParseErrorV),
}

pub open spec fn ph_run(evs: Seq<XmlEv>, n: int) -> PhRunV
    decreases n,
{
    if n <= 0 {
        PhRunV::Going(ph_initial())
    } else {
        match ph_run(evs, n - 1) {
            PhRunV::Going(st) => match ph_step(st, evs[n - 1]) {
                PhStepV::Next(s) => PhRunV::Going(s),
                PhStepV::Done(s) => PhRunV::Done(s),
                PhStepV::Fail(e) => PhRunV::Failed(e),
            },
            other => other,
        }
    }
}

pub open spec fn ph_finish(st: PhStateV) -> Result<ParsedFeedV, ParseErrorV> {
    if st.format is None {
        Err(ParseErrorV::UnsupportedFormat)
    } else {
        Ok(ParsedFeedV { title: st.title, entries: st.entries })
    }
}

pub open spec fn ph_outcome(evs: Seq<XmlEv>) -> Result<ParsedFeedV, ParseErrorV> {
    match ph_run(evs, evs.len() as int) {
        PhRunV::Going(st) => ph_finish(st),
        PhRunV::Done(st) => ph_finish(st),
        PhRunV::Failed(e) => Err(e),
    }
}

/// What [`parse_feed`] returns for a document.
pub open spec fn ph_feed_of(doc: Seq<u8>) -> Result<ParsedFeedV, ParseErrorV> {
    let b = without_bom(doc);
    if valid_utf8(b) {
        ph_outcome(xml_events(b))
    } else {
        Err(ParseErrorV::Encoding)
    }
}

} // verus!

verus! {

// ---------------------------------------------------------------- executable

proof fn lemma_skip_skip(s: Seq<char>, i: int, k: int)
    requires
        0 <= i,
        0 <= k,
        i + k <= s.len(),
    ensures
        s.skip(i).skip(k) == s.skip(i + k),
{
    assert(s.skip(i).skip(k) =~= s.skip(i + k));
}

/// `BytesText::xml10_content`: line ends normalized to `\n`.
fn xml10_text(t: &str) -> (r: Vec<char>)
    ensures
        r@ == xml10_eols(t@),
{
    let v = str_chars(t);
    let mut out: Vec<char> = Vec::new();
    let mut i: usize = 0;
    assert(v@.skip(0) =~= v@);
    while i < v.len()
        invariant
            i <= v@.len(),
            xml10_eols(v@) == out@ + xml10_eols(v@.skip(i as int)),
        decreases v@.len() - i,
    {
        let ghost rest = v@.skip(i as int);
        assert(rest[0] == v@[i as int]);
        if v[i] == '\r' {
            out.push('\n');
            if i + 1 < v.len() && v[i + 1] == '\n' {
                assert(rest[1] == v@[i + 1]);
                proof {
                    lemma_skip_skip(v@, i as int, 2);
                }
                i = i + 2;
            } else {
                proof {
                    lemma_skip_skip(v@, i as int, 1);
                }
                i = i + 1;
            }
        } else {
            out.push(v[i]);
            proof {
                lemma_skip_skip(v@, i as int, 1);
            }
            i = i + 1;
        }
        assert(xml10_eols(v@) == out@ + xml10_eols(v@.skip(i as int)));
    }
    assert(v@.skip(i as int) =~= Seq::<char>::empty());
    assert(out@ + Seq::<char>::empty() =~= out@);
    out
}

pub open spec fn segs_view(v: Seq<(bool, Vec<char>)>) -> Seq<(bool, Seq<char>)> {
    v.map_values(|p: (bool, Vec<char>)| (p.0, p.1@))
}

fn trim_start_chars(v: &[char]) -> (r: Vec<char>)
    ensures
        r@ == trim_start(v@),
{
    let i = lead_ws_exec(v);
    subvec(v, i, v.len())
}

fn trim_end_chars(v: &[char]) -> (r: Vec<char>)
    ensures
        r@ == trim_end(v@),
{
    let j = trail_ws_exec(v);
    subvec(v, 0, v.len() - j)
}

/// Join a field's segments, trimming plain text at the edges.
fn finish_text_exec(segs: Vec<(bool, Vec<char>)>) -> (r: Vec<char>)
    ensures
        r@ == finish_text(segs_view(segs@)),
{
    let ghost orig = segs_view(segs@);
    let mut segs = segs;
    let mut i: usize = 0;
    while i < segs.len() && !segs[i].0
        invariant_except_break
            lead_loop(orig, 0) == lead_loop(segs_view(segs@), i as int),
        invariant
            i <= segs@.len(),
            segs_view(segs@).len() == segs@.len(),
        ensures
            lead_loop(orig, 0) == segs_view(segs@),
        decreases segs@.len() - i,
    {
        let ghost before = segs_view(segs@);
        let t = trim_start_chars(segs[i].1.as_slice());
        assert(before[i as int] == (segs@[i as int].0, segs@[i as int].1@));
        let nonempty = t.len() > 0;
        segs.set(i, (false, t));
        assert(segs_view(segs@) =~= before.update(i as int, (false, trim_start(before[i as int].1))));
        if nonempty {
            break;
        }
        i = i + 1;
    }
    let ghost lead = segs_view(segs@);
    assert(lead == lead_loop(orig, 0));
    let mut j: usize = segs.len();
    while j > 0 && !segs[j - 1].0
        invariant_except_break
            trail_loop(lead, lead.len() as int) == trail_loop(segs_view(segs@), j as int),
        invariant
            j <= segs@.len(),
            segs_view(segs@).len() == segs@.len(),
            lead.len() == segs@.len(),
        ensures
            trail_loop(lead, lead.len() as int) == segs_view(segs@),
        decreases j,
    {
        let ghost before = segs_view(segs@);
        let t = trim_end_chars(segs[j - 1].1.as_slice());
        assert(before[j - 1] == (segs@[j - 1].0, segs@[j - 1].1@));
        let nonempty = t.len() > 0;
        segs.set(j - 1, (false, t));
        assert(segs_view(segs@) =~= before.update(j - 1, (false, trim_end(before[j - 1].1))));
        if nonempty {
            break;
        }
        j = j - 1;
    }
    let ghost trailed = segs_view(segs@);
    assert(trailed == trail_loop(lead, lead.len() as int));
    let mut out: Vec<char> = Vec::new();
    let mut k: usize = 0;
    assert(trailed.take(0) =~= Seq::<(bool, Seq<char>)>::empty());
    while k < segs.len()
        invariant
            k <= segs@.len(),
            trailed == segs_view(segs@),
            trailed.len() == segs@.len(),
            out@ == concat_segs(trailed.take(k as int)),
        decreases segs@.len() - k,
    {
        push_chars(&mut out, segs[k].1.as_slice());
        assert(trailed.take(k + 1).drop_last() =~= trailed.take(k as int));
        assert(trailed[k as int].1 == segs@[k as int].1@);
        k = k + 1;
    }
    assert(trailed.take(k as int) =~= trailed);
    out
}

} // verus!

verus! {

/// The replacement of a general reference.
fn ref_text_exec(name: &str) -> (r: Result<String, String>)
    ensures
        match r {
            Ok(s) => ref_text(name@) == Ok::<Seq<char>, Seq<char>>(s@),
            Err(m) => ref_text(name@) == Err::<Seq<char>, Seq<char>>(m@),
        },
{
    let v = str_chars(name);
    if v.len() > 0 && v[0] == '#' {
        match resolve_reference(name) {
            Some(s) => Ok(s),
            None => {
                let mut m = str_chars("invalid character reference &");
                push_str(&mut m, name);
                m.push(';');
                assert(m@ =~= "invalid character reference &"@ + name@ + seq![';']);
                Err(string_of(m.as_slice()))
            },
        }
    } else {
        match resolve_html5(name) {
            Some(s) => Ok(s),
            None => {
                let mut m: Vec<char> = Vec::new();
                m.push('&');
                push_str(&mut m, name);
                m.push(';');
                assert(m@ =~= seq!['&'] + name@ + seq![';']);
                Ok(string_of(m.as_slice()))
            },
        }
    }
}

/// Raw strings collected for one item or entry.
pub struct ItemBuf {
    guid: Option<String>,
    title: Option<String>,
    link: Option<String>,
    alternate_link: Option<String>,
    first_link: Option<String>,
    summary: Option<String>,
    content: Option<String>,
    published: Option<String>,
    updated: Option<String>,
    pub_date: Option<String>,
}

impl View for ItemBuf {
    type V = BufV;

    closed spec fn view(&self) -> BufV {
        BufV {
            guid: opt_view(self.guid),
            title: opt_view(self.title),
            link: opt_view(self.link),
            alternate_link: opt_view(self.alternate_link),
            first_link: opt_view(self.first_link),
            summary: opt_view(self.summary),
            content: opt_view(self.content),
            published: opt_view(self.published),
            updated: opt_view(self.updated),
            pub_date: opt_view(self.pub_date),
        }
    }
}

fn new_buf() -> (b: ItemBuf)
    ensures
        b@ == empty_buf(),
{
    ItemBuf {
        guid: None,
        title: None,
        link: None,
        alternate_link: None,
        first_link: None,
        summary: None,
        content: None,
        published: None,
        updated: None,
        pub_date: None,
    }
}

fn fill(slot: &mut Option<String>, v: String)
    ensures
        opt_view(*final(slot)) == first_wins(opt_view(*old(slot)), v@),
{
    if slot.is_none() {
        *slot = Some(v);
    }
}

fn set_slot_exec(b: &mut ItemBuf, f: PField, v: String)
    ensures
        final(b)@ == set_slot(old(b)@, f, v@),
{
    match f {
        PField::Guid => fill(&mut b.guid, v),
        PField::Title => fill(&mut b.title, v),
        PField::Link => fill(&mut b.link, v),
        PField::Summary => fill(&mut b.summary, v),
        PField::Content => fill(&mut b.content, v),
        PField::Published => fill(&mut b.published, v),
        PField::Updated => fill(&mut b.updated, v),
        PField::PubDate => fill(&mut b.pub_date, v),
        PField::FeedTitle => {},
    }
}

fn non_empty_opt(s: Option<String>) -> (r: Option<String>)
    ensures
        opt_view(r) == non_empty(opt_view(s)),
{
    match s {
        Some(v) => {
            let c = str_chars(v.as_str());
            if crate::strs::is_blank_vec(c.as_slice()) {
                None
            } else {
                Some(v)
            }
        },
        None => None,
    }
}

fn or_else_opt(a: Option<String>, b: Option<String>) -> (r: Option<String>)
    ensures
        opt_view(r) == or_else(opt_view(a), opt_view(b)),
{
    match a {
        Some(x) => Some(x),
        None => b,
    }
}

fn rfc3339_of_opt(t: &Option<String>) -> (r: Option<Instant>)
    ensures
        r == rfc3339_opt(opt_view(*t)),
        r matches Some(i) ==> i.valid(),
{
    match t {
        Some(x) => parse_rfc3339(x.as_str()),
        None => None,
    }
}

/// The entry an item becomes, `None` without an identity.
fn into_entry(b: ItemBuf, format: Format) -> (r: Option<ParsedEntry>)
    ensures
        r matches Some(e) ==> into_entry_of(b@, format) == Some(e@),
        r is None ==> into_entry_of(b@, format) is None,
        r matches Some(e) ==> (e.published_at matches Some(i) ==> i.valid()),
{
    let ghost bv = b@;
    let (link, summary, published_at) = match format {
        Format::Rss => {
            let pa = match &b.pub_date {
                Some(d) => parse_rfc822(d.as_str()),
                None => None,
            };
            (b.link, b.summary, pa)
        },
        Format::Atom => {
            let link = or_else_opt(b.alternate_link, b.first_link);
            let summary = or_else_opt(b.summary, b.content);
            let pa = match rfc3339_of_opt(&b.published) {
                Some(i) => Some(i),
                None => rfc3339_of_opt(&b.updated),
            };
            (link, summary, pa)
        },
    };
    let guid = match non_empty_opt(b.guid) {
        Some(g) => g,
        None => match non_empty_opt(link.clone()) {
            Some(l) => l,
            None => return None,
        },
    };
    let title = match non_empty_opt(b.title) {
        Some(t) => t,
        None => untitled(),
    };
    Some(ParsedEntry { guid, title, link: non_empty_opt(link), summary: non_empty_opt(summary), published_at })
}

/// Scan a link's attributes for `rel` and `href`.
fn link_scan_exec(attrs: &Vec<AttrItem>) -> (r: Result<(Option<String>, Option<String>), String>)
    ensures
        match r {
            Ok((rel, href)) => link_scan(attr_items_view(attrs@), None, None) == Ok::<
                (Option<Seq<char>>, Option<Seq<char>>),
                Seq<char>,
            >((opt_view(rel), opt_view(href))),
            Err(m) => link_scan(attr_items_view(attrs@), None, None) == Err::<
                (Option<Seq<char>>, Option<Seq<char>>),
                Seq<char>,
            >(m@),
        },
{
    let ghost av = attr_items_view(attrs@);
    let mut rel: Option<String> = None;
    let mut href: Option<String> = None;
    let mut i: usize = 0;
    assert(av.skip(0) =~= av);
    while i < attrs.len()
        invariant
            i <= attrs@.len(),
            av == attr_items_view(attrs@),
            av.len() == attrs@.len(),
            link_scan(av, None, None) == link_scan(av.skip(i as int), opt_view(rel), opt_view(href)),
        decreases attrs@.len() - i,
    {
        assert(av.skip(i as int)[0] == av[i as int]);
        assert(av.skip(i as int).drop_first() =~= av.skip(i + 1));
        match &attrs[i] {
            Err(m) => return Err(m.clone()),
            Ok((_, Err(m))) => return Err(m.clone()),
            Ok((k, Ok(v))) => {
                let kc = local_name(k.as_str());
                if eq_chars(kc.as_slice(), &['h', 'r', 'e', 'f']) {
                    href = Some(v.clone());
                } else if eq_chars(kc.as_slice(), &['r', 'e', 'l']) {
                    rel = Some(v.clone());
                }
            },
        }
        i = i + 1;
    }
    Ok((rel, href))
}

/// Record an Atom link of an entry.
fn record_link(b: &mut ItemBuf, q: &str, content: &str) -> (r: Result<(), String>)
    requires
        q@.is_prefix_of(content@),
    ensures
        match r {
            Ok(_) => record_link_of(old(b)@, ph_attrs_of(q@, content@)) == Ok::<BufV, Seq<char>>(final(b)@),
            Err(m) => record_link_of(old(b)@, ph_attrs_of(q@, content@)) == Err::<BufV, Seq<char>>(m@),
        },
{
    let n = utf8_len(q);
    proof {
        lemma_name_boundary(q@, content@);
    }
    let attrs = tag_attributes_unescaped(content, n);
    let (rel, href) = match link_scan_exec(&attrs) {
        Ok(p) => p,
        Err(m) => return Err(m),
    };
    let h = match non_empty_opt(href) {
        Some(h) => h,
        None => return Ok(()),
    };
    if b.first_link.is_none() {
        b.first_link = Some(h.clone());
    }
    let alternate = match &rel {
        Some(r) => {
            let rc = str_chars(r.as_str());
            eq_chars(rc.as_slice(), &['a', 'l', 't', 'e', 'r', 'n', 'a', 't', 'e'])
        },
        None => true,
    };
    if alternate && b.alternate_link.is_none() {
        b.alternate_link = Some(h);
    }
    Ok(())
}

} // verus!

verus! {

pub open spec fn path_view(v: Seq<Vec<char>>) -> Seq<Seq<char>> {
    v.map_values(|w: Vec<char>| w@)
}

/// A field being collected.
struct Accum {
    field: PField,
    depth: usize,
    segs: Vec<(bool, Vec<char>)>,
}

/// The parse state.
pub struct PhState {
    path: Vec<Vec<char>>,
    format: Option<Format>,
    title: Option<String>,
    entries: Vec<ParsedEntry>,
    item: Option<ItemBuf>,
    accum: Option<Accum>,
}

impl View for PhState {
    type V = PhStateV;

    closed spec fn view(&self) -> PhStateV {
        PhStateV {
            path: path_view(self.path@),
            format: self.format,
            title: opt_view(self.title),
            entries: parsed_entries_view(self.entries@),
            item: match self.item {
                Some(b) => Some(b@),
                None => None,
            },
            accum: match self.accum {
                Some(a) => Some(AccumV { field: a.field, depth: a.depth as int, segs: segs_view(a.segs@) }),
                None => None,
            },
        }
    }
}

/// Every finished entry's date is an instant `chrono` can represent.
pub open spec fn dates_valid(entries: Seq<ParsedEntryV>) -> bool {
    forall|k: int| 0 <= k < entries.len() ==> ((#[trigger] entries[k]).published_at matches Some(i) ==> i.valid())
}

fn start_field(st: &mut PhState, f: PField, depth: usize)
    ensures
        final(st)@ == start_field_of(old(st)@, f, depth as int),
{
    if st.accum.is_none() {
        st.accum = Some(Accum { field: f, depth, segs: Vec::new() });
        assert(segs_view(st.accum->0.segs@) =~= Seq::<(bool, Seq<char>)>::empty());
    }
}

fn word_at(path: &Vec<Vec<char>>, i: usize, w: &[char]) -> (r: bool)
    requires
        i < path@.len(),
    ensures
        r == (path_view(path@)[i as int] == w@),
{
    assert(path_view(path@)[i as int] == path@[i as int]@);
    eq_chars(path[i].as_slice(), w)
}

fn rss_field_exec(name: &[char]) -> (r: Option<PField>)
    ensures
        r == rss_field(name@),
{
    if eq_chars(name, &['t', 'i', 't', 'l', 'e']) {
        Some(PField::Title)
    } else if eq_chars(name, &['l', 'i', 'n', 'k']) {
        Some(PField::Link)
    } else if eq_chars(name, &['d', 'e', 's', 'c', 'r', 'i', 'p', 't', 'i', 'o', 'n']) {
        Some(PField::Summary)
    } else if eq_chars(name, &['g', 'u', 'i', 'd']) {
        Some(PField::Guid)
    } else if eq_chars(name, &['p', 'u', 'b', 'D', 'a', 't', 'e']) {
        Some(PField::PubDate)
    } else {
        None
    }
}

fn atom_field_exec(name: &[char]) -> (r: Option<PField>)
    ensures
        r == atom_field(name@),
{
    if eq_chars(name, &['t', 'i', 't', 'l', 'e']) {
        Some(PField::Title)
    } else if eq_chars(name, &['i', 'd']) {
        Some(PField::Guid)
    } else if eq_chars(name, &['s', 'u', 'm', 'm', 'a', 'r', 'y']) {
        Some(PField::Summary)
    } else if eq_chars(name, &['c', 'o', 'n', 't', 'e', 'n', 't']) {
        Some(PField::Content)
    } else if eq_chars(name, &['p', 'u', 'b', 'l', 'i', 's', 'h', 'e', 'd']) {
        Some(PField::Published)
    } else if eq_chars(name, &['u', 'p', 'd', 'a', 't', 'e', 'd']) {
        Some(PField::Updated)
    } else {
        None
    }
}

fn rss_start(st: &mut PhState)
    ensures
        final(st)@ == rss_start_of(old(st)@),
        final(st)@.entries == old(st)@.entries,
{
    let n = st.path.len();
    let channel: &[char] = &['c', 'h', 'a', 'n', 'n', 'e', 'l'];
    let item: &[char] = &['i', 't', 'e', 'm'];
    let title: &[char] = &['t', 'i', 't', 'l', 'e'];
    assert(channel@ == seq!['c', 'h', 'a', 'n', 'n', 'e', 'l']);
    assert(item@ == seq!['i', 't', 'e', 'm']);
    assert(title@ == seq!['t', 'i', 't', 'l', 'e']);
    if n == 3 && word_at(&st.path, 1, channel) {
        if word_at(&st.path, 2, item) {
            st.item = Some(new_buf());
        } else if word_at(&st.path, 2, title) {
            start_field(st, PField::FeedTitle, 3);
        }
    } else if n == 4 && word_at(&st.path, 1, channel) && word_at(&st.path, 2, item) {
        assert(path_view(st.path@)[3] == st.path@[3]@);
        match rss_field_exec(st.path[3].as_slice()) {
            Some(f) => start_field(st, f, 4),
            None => {},
        }
    }
}

fn atom_start(st: &mut PhState, q: &str, content: &str) -> (r: Result<(), ParseError>)
    requires
        q@.is_prefix_of(content@),
    ensures
        r matches Ok(_) ==> atom_start_of(old(st)@, ph_attrs_of(q@, content@)) == Ok::<PhStateV, ParseErrorV>(final(st)@),
        r matches Err(e) ==> atom_start_of(old(st)@, ph_attrs_of(q@, content@)) == Err::<PhStateV, ParseErrorV>(e@),
        final(st)@.entries == old(st)@.entries,
{
    let n = st.path.len();
    let entry: &[char] = &['e', 'n', 't', 'r', 'y'];
    let title: &[char] = &['t', 'i', 't', 'l', 'e'];
    let link: &[char] = &['l', 'i', 'n', 'k'];
    assert(entry@ == seq!['e', 'n', 't', 'r', 'y']);
    assert(title@ == seq!['t', 'i', 't', 'l', 'e']);
    assert(link@ == seq!['l', 'i', 'n', 'k']);
    if n == 2 {
        if word_at(&st.path, 1, entry) {
            st.item = Some(new_buf());
        } else if word_at(&st.path, 1, title) {
            start_field(st, PField::FeedTitle, 2);
        }
        Ok(())
    } else if n == 3 && word_at(&st.path, 1, entry) {
        if word_at(&st.path, 2, link) {
            match st.item.take() {
                Some(mut b) => {
                    let r = record_link(&mut b, q, content);
                    st.item = Some(b);
                    match r {
                        Ok(()) => Ok(()),
                        Err(m) => Err(ParseError::Xml(m)),
                    }
                },
                None => Ok(()),
            }
        } else {
            assert(path_view(st.path@)[2] == st.path@[2]@);
            match atom_field_exec(st.path[2].as_slice()) {
                Some(f) => start_field(st, f, 3),
                None => {},
            }
            Ok(())
        }
    } else {
        Ok(())
    }
}

/// An element starts.
fn ph_start(st: &mut PhState, q: &str, content: &str) -> (r: Result<(), ParseError>)
    requires
        q@.is_prefix_of(content@),
    ensures
        r matches Ok(_) ==> ph_start_of(old(st)@, q@, ph_attrs_of(q@, content@)) == Ok::<PhStateV, ParseErrorV>(final(st)@),
        r matches Err(e) ==> ph_start_of(old(st)@, q@, ph_attrs_of(q@, content@)) == Err::<PhStateV, ParseErrorV>(e@),
        final(st)@.entries == old(st)@.entries,
{
    let name = local_name(q);
    let ghost before = path_view(st.path@);
    st.path.push(name);
    assert(path_view(st.path@) =~= before.push(local_of(q@)));
    match st.format {
        None => {
            let rss: &[char] = &['r', 's', 's'];
            let feed: &[char] = &['f', 'e', 'e', 'd'];
            assert(rss@ == seq!['r', 's', 's']);
            assert(feed@ == seq!['f', 'e', 'e', 'd']);
            if word_at(&st.path, 0, rss) {
                st.format = Some(Format::Rss);
                Ok(())
            } else if word_at(&st.path, 0, feed) {
                st.format = Some(Format::Atom);
                Ok(())
            } else {
                Err(ParseError::UnsupportedFormat)
            }
        },
        Some(Format::Rss) => {
            rss_start(st);
            Ok(())
        },
        Some(Format::Atom) => atom_start(st, q, content),
    }
}

fn store_field(st: &mut PhState, f: PField, v: String)
    ensures
        final(st)@ == store_field_of(old(st)@, f, v@),
{
    match f {
        PField::FeedTitle => {
            if st.title.is_none() {
                st.title = non_empty_opt(Some(v));
            }
        },
        _ => match st.item.take() {
            Some(mut b) => {
                set_slot_exec(&mut b, f, v);
                st.item = Some(b);
            },
            None => {},
        },
    }
}

fn item_name_exec(f: Format) -> (r: Vec<char>)
    ensures
        r@ == item_name(f),
{
    match f {
        Format::Rss => {
            let v = vec!['i', 't', 'e', 'm'];
            assert(v@ =~= seq!['i', 't', 'e', 'm']);
            v
        },
        Format::Atom => {
            let v = vec!['e', 'n', 't', 'r', 'y'];
            assert(v@ =~= seq!['e', 'n', 't', 'r', 'y']);
            v
        },
    }
}

/// An element ends.
fn ph_end(st: &mut PhState)
    ensures
        final(st)@ == ph_end_of(old(st)@),
        dates_valid(old(st)@.entries) ==> dates_valid(final(st)@.entries),
{
    let depth = st.path.len();
    let ghost before = path_view(st.path@);
    let popped: Option<Vec<char>> = st.path.pop();
    proof {
        if depth > 0 {
            assert(path_view(st.path@) =~= before.drop_last());
        } else {
            assert(path_view(st.path@) =~= before);
        }
    }
    let take = match &st.accum {
        Some(a) => a.depth == depth,
        None => false,
    };
    if take {
        match st.accum.take() {
            Some(a) => {
                let text = finish_text_exec(a.segs);
                store_field(st, a.field, string_of(text.as_slice()));
            },
            None => {},
        }
    }
    match (st.format, popped) {
        (Some(f), Some(name)) => {
            assert(name@ == before.last());
            let iname = item_name_exec(f);
            let parent: usize = match f {
                Format::Rss => 2,
                Format::Atom => 1,
            };
            if eq_chars(name.as_slice(), iname.as_slice()) && st.path.len() == parent {
                match st.item.take() {
                    Some(b) => match into_entry(b, f) {
                        Some(e) => {
                            let ghost ev = parsed_entries_view(st.entries@);
                            st.entries.push(e);
                            assert(parsed_entries_view(st.entries@) =~= ev.push(e@));
                        },
                        None => {},
                    },
                    None => {},
                }
            }
        },
        _ => {},
    }
}

fn push_seg_exec(st: &mut PhState, verbatim: bool, t: Vec<char>)
    ensures
        final(st)@ == push_seg(old(st)@, verbatim, t@),
{
    match st.accum.take() {
        Some(mut a) => {
            let ghost sv = segs_view(a.segs@);
            let ghost tv = t@;
            a.segs.push((verbatim, t));
            assert(segs_view(a.segs@) =~= sv.push((verbatim, tv)));
            st.accum = Some(a);
        },
        None => {},
    }
}

enum PhStep {
    Next,
    Done,
    Fail(ParseError),
}

/// Apply one event.
fn ph_step_exec(st: &mut PhState, ev: &XmlEvent) -> (r: PhStep)
    requires
        name_leads(ev@),
    ensures
        r is Next ==> ph_step(old(st)@, ev@) == PhStepV::Next(final(st)@),
        r is Done ==> ph_step(old(st)@, ev@) == PhStepV::Done(final(st)@),
        r matches PhStep::Fail(e) ==> ph_step(old(st)@, ev@) == PhStepV::Fail(e@),
        dates_valid(old(st)@.entries) ==> dates_valid(final(st)@.entries),
{
    match ev {
        XmlEvent::Error(m) => PhStep::Fail(ParseError::Xml(m.clone())),
        XmlEvent::Eof => {
            let n = st.path.len();
            if n > 0 {
                assert(path_view(st.path@).last() == st.path@[n - 1]@);
                PhStep::Fail(ParseError::Xml(unclosed(st.path[n - 1].as_slice())))
            } else {
                PhStep::Done
            }
        },
        XmlEvent::Start(q, c) => match ph_start(st, q.as_str(), c.as_str()) {
            Ok(()) => PhStep::Next,
            Err(e) => PhStep::Fail(e),
        },
        XmlEvent::Empty(q, c) => match ph_start(st, q.as_str(), c.as_str()) {
            Ok(()) => {
                ph_end(st);
                PhStep::Next
            },
            Err(e) => PhStep::Fail(e),
        },
        XmlEvent::End(_) => {
            ph_end(st);
            PhStep::Next
        },
        XmlEvent::Text(t) => {
            let x = xml10_text(t.as_str());
            push_seg_exec(st, false, x);
            PhStep::Next
        },
        XmlEvent::CData(t) => {
            let x = str_chars(t.as_str());
            push_seg_exec(st, true, x);
            PhStep::Next
        },
        XmlEvent::Ref(r) => {
            if st.accum.is_some() {
                match ref_text_exec(r.as_str()) {
                    Ok(x) => {
                        let xc = str_chars(x.as_str());
                        push_seg_exec(st, true, xc);
                        PhStep::Next
                    },
                    Err(m) => PhStep::Fail(ParseError::Xml(m)),
                }
            } else {
                PhStep::Next
            }
        },
        XmlEvent::Other => PhStep::Next,
    }
}

proof fn lemma_ph_stopped(evs: Seq<XmlEv>, i: int, n: int)
    requires
        0 <= i <= n,
        !(ph_run(evs, i) is Going),
    ensures
        ph_run(evs, n) == ph_run(evs, i),
    decreases n - i,
{
    if n > i {
        lemma_ph_stopped(evs, i, n - 1);
    }
}

/// Parse an event stream.
pub fn parse_events(evs: &Vec<XmlEvent>) -> (r: Result<ParsedFeed, ParseError>)
    requires
        names_lead(events_view(evs@)),
    ensures
        result_view(r) == ph_outcome(events_view(evs@)),
        r matches Ok(f) ==> dates_valid(f@.entries),
{
    let ghost e = events_view(evs@);
    let mut st = PhState { path: Vec::new(), format: None, title: None, entries: Vec::new(), item: None, accum: None };
    assert(path_view(st.path@) =~= Seq::<Seq<char>>::empty());
    assert(parsed_entries_view(st.entries@) =~= Seq::<ParsedEntryV>::empty());
    assert(st@ == ph_initial());
    let mut i: usize = 0;
    while i < evs.len()
        invariant_except_break
            ph_run(e, i as int) == PhRunV::Going(st@),
        invariant
            i <= evs@.len(),
            e == events_view(evs@),
            e.len() == evs@.len(),
            names_lead(e),
            dates_valid(st@.entries),
        ensures
            i < evs@.len() ==> ph_run(e, i + 1) == PhRunV::Done(st@),
            i == evs@.len() ==> ph_run(e, i as int) == PhRunV::Going(st@),
        decreases evs@.len() - i,
    {
        assert(e[i as int] == evs@[i as int]@);
        assert(name_leads(e[i as int]));
        match ph_step_exec(&mut st, &evs[i]) {
            PhStep::Next => {},
            PhStep::Done => {
                break;
            },
            PhStep::Fail(err) => {
                proof {
                    assert(ph_run(e, i + 1) == PhRunV::Failed(err@));
                    lemma_ph_stopped(e, i + 1, e.len() as int);
                }
                return Err(err);
            },
        }
        i = i + 1;
    }
    proof {
        if i < evs@.len() {
            lemma_ph_stopped(e, i + 1, e.len() as int);
        }
    }
    if st.format.is_none() {
        return Err(ParseError::UnsupportedFormat);
    }
    Ok(ParsedFeed { title: st.title, entries: st.entries })
}

/// Parse an RSS 2.0 or Atom document. A leading UTF-8 BOM is tolerated.
pub fn parse_feed(input: &[u8]) -> (r: Result<ParsedFeed, ParseError>)
    ensures
        result_view(r) == ph_feed_of(input@),
        r matches Ok(f) ==> dates_valid(f@.entries),
{
    let body = strip_bom(input);
    if utf8_text(body).is_none() {
        return Err(ParseError::Encoding);
    }
    let evs = read_events(body);
    parse_events(&evs)
}

/// The message of a parse error.
pub open spec fn error_text(e: ParseErrorV) -> Seq<char> {
    match e {
        ParseErrorV::Encoding => "feed is not valid UTF-8"@,
        ParseErrorV::Xml(m) => "malformed XML: "@ + m,
        ParseErrorV::UnsupportedFormat => "document is neither RSS 2.0 nor Atom"@,
    }
}

impl ParseError {
    /// The error's message.
    pub fn message(&self) -> (r: String)
        ensures
            r@ == error_text(self@),
    {
        match self {
            ParseError::Encoding => "feed is not valid UTF-8".to_owned(),
            ParseError::Xml(m) => {
                let mut v = str_chars("malformed XML: ");
                push_str(&mut v, m.as_str());
                string_of(v.as_slice())
            },
            ParseError::UnsupportedFormat => "document is neither RSS 2.0 nor Atom".to_owned(),
        }
    }
}

} // verus!

verus! {

/// A leading UTF-8 byte-order mark does not change what a document parses
/// to.
pub proof fn law_bom_tolerated(doc: Seq<u8>)
    requires
        !(doc.len() >= 3 && doc[0] == 0xEF && doc[1] == 0xBB && doc[2] == 0xBF),
    ensures
        ph_feed_of(seq![0xEFu8, 0xBBu8, 0xBFu8] + doc) == ph_feed_of(doc),
{
    let b = seq![0xEFu8, 0xBBu8, 0xBFu8] + doc;
    assert(b.skip(3) =~= doc);
}

/// CDATA is kept exactly; plain text is trimmed at the field's edges.
pub proof fn law_cdata_verbatim_text_trimmed(x: Seq<char>, t: Seq<char>)
    ensures
        finish_text(seq![(true, x)]) == x,
        finish_text(seq![(false, t)]) == trim_end(trim_start(t)),
{
    let s1 = seq![(true, x)];
    assert(lead_loop(s1, 0) == s1);
    assert(trail_loop(s1, 1) == s1);
    assert(s1.drop_last() =~= Seq::<(bool, Seq<char>)>::empty());
    assert(concat_segs(Seq::<(bool, Seq<char>)>::empty()) == Seq::<char>::empty());
    assert(Seq::<char>::empty() + x =~= x);
    assert(concat_segs(s1) =~= x);
    let s2 = seq![(false, t)];
    let a = trim_start(t);
    let l = lead_loop(s2, 0);
    if a.len() > 0 {
        assert(l == s2.update(0, (false, a)));
    } else {
        assert(lead_loop(s2.update(0, (false, a)), 1) == s2.update(0, (false, a)));
    }
    assert(l =~= seq![(false, a)]);
    let b = trim_end(a);
    let tr = trail_loop(l, 1);
    if b.len() > 0 {
        assert(tr == l.update(0, (false, b)));
    } else {
        assert(trail_loop(l.update(0, (false, b)), 0) == l.update(0, (false, b)));
    }
    assert(tr =~= seq![(false, b)]);
    assert(tr.drop_last() =~= Seq::<(bool, Seq<char>)>::empty());
    assert(Seq::<char>::empty() + b =~= b);
    assert(concat_segs(tr) =~= b);
}

/// A reference that is neither a character reference nor a known entity
/// is kept as written.
pub proof fn law_unknown_entity_kept(name: Seq<char>)
    requires
        !(name.len() > 0 && name[0] == '#'),
        html5_entity(name) is None,
    ensures
        ref_text(name) == Ok::<Seq<char>, Seq<char>>(seq!['&'] + name + seq![';']),
{
}

/// Only a `<title>` directly inside `rss/channel` names an RSS feed.
pub proof fn law_rss_feed_title_path(s: PhStateV)
    requires
        s.accum is None,
        rss_start_of(s).accum matches Some(a) && a.field == PField::FeedTitle,
    ensures
        s.path.len() == 3,
        s.path[1] == seq!['c', 'h', 'a', 'n', 'n', 'e', 'l'],
        s.path[2] == seq!['t', 'i', 't', 'l', 'e'],
{
}

/// An item without a non-blank identity (its own or its link) is dropped.
pub proof fn law_entry_needs_identity(b: BufV, format: Format)
    ensures
        into_entry_of(b, format) is None <==> (non_empty(b.guid) is None && non_empty(
            match format {
                Format::Rss => b.link,
                Format::Atom => or_else(b.alternate_link, b.first_link),
            },
        ) is None),
{
}

} // verus!
