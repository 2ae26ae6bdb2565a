//! Single-pass RSS 2.0 and Atom parsing with lenient element matching.
//!
//! Element names are matched by their lowercased local part, whatever their
//! namespace. Text nodes are entity-unescaped (a node whose references do not
//! all resolve is dropped); CDATA sections are taken verbatim. Items without
//! an identity get a deterministic one derived from their text.
//!
//! The meaning of a parse is the fold of [`lp_step`] over the events; the
//! executable parser performs exactly that fold.
use vstd::prelude::*;
use vstd::utf8::encode_utf8;
use crate::datetime::{feed_date_of, parse_feed_date};
use crate::feed::{local_name, local_name_of, without_bom, Format};
use crate::fileserve::{fnv1a, fnv1a_of, hex16, hex16_chars};
use crate::model::{parsed_entries_view, ParsedEntry, ParsedEntryV};
use crate::parser::{entity, entity_text};
use crate::strs::{eq_chars, push_chars, push_str, str_chars, string_of, trim, trim_vec};
use crate::text::{opt_view, untitled, untitled_text};
use crate::xml::{
    attr_items_view, events_view, lemma_name_boundary, name_leads, names_lead, read_events, utf8_len, tag_attribute_items, tag_attributes_unescaped, xml_events, AttrItem,
    AttrItemV, XmlEv, XmlEvent,
};

verus! {

/// Errors of [`parse_feed`].
#[derive(Clone, Debug, PartialEq, Eq)]
pub enum ParseError {
    /// The XML was malformed.
    Xml(String),
    /// The document was well-formed but not a recognized feed format.
    UnknownFormat,
}

pub enum ParseErrorV {
    Xml(Seq<char>),
    UnknownFormat,
}

impl View for ParseError {
    type V = ParseErrorV;

    open spec fn view(&self) -> ParseErrorV {
        match self {
            ParseError::Xml(m) => ParseErrorV::Xml(m@),
            ParseError::UnknownFormat => ParseErrorV::UnknownFormat,
        }
    }
}

/// A parsed feed: its title and its entries in document order.
#[derive(Clone, Debug)]
pub struct ParsedFeed {
    pub title: Option<String>,
    pub entries: Vec<ParsedEntry>,
}

pub struct ParsedFeedV {
    pub title: Option<Seq<char>>,
    pub entries: Seq<ParsedEntryV>,
}

impl View for ParsedFeed {
    type V = ParsedFeedV;

    open spec fn view(&self) -> ParsedFeedV {
        ParsedFeedV { title: opt_view(self.title), entries: parsed_entries_view(self.entries@) }
    }
}

pub open spec fn result_view(r: Result<ParsedFeed, ParseError>) -> Result<ParsedFeedV, ParseErrorV> {
    match r {
        Ok(f) => Ok(f@),
        Err(e) => Err(e@),
    }
}

/// What the current text buffer is being captured into.
#[derive(Clone, Copy, Debug, PartialEq, Eq, Structural)]
pub enum Target {
    FeedTitle,
    Title,
    RssLink,
    Guid,
    Id,
    Description,
    Summary,
    Content,
    PubDate,
    Published,
    Updated,
}

// ---------------------------------------------------------------- words

pub open spec fn k_title() -> Seq<char> {
    seq!['t', 'i', 't', 'l', 'e']
}

pub open spec fn k_link() -> Seq<char> {
    seq!['l', 'i', 'n', 'k']
}

pub open spec fn k_item() -> Seq<char> {
    seq!['i', 't', 'e', 'm']
}

pub open spec fn k_entry() -> Seq<char> {
    seq!['e', 'n', 't', 'r', 'y']
}

pub open spec fn k_feed() -> Seq<char> {
    seq!['f', 'e', 'e', 'd']
}

pub open spec fn k_channel() -> Seq<char> {
    seq!['c', 'h', 'a', 'n', 'n', 'e', 'l']
}

pub open spec fn k_alternate() -> Seq<char> {
    seq!['a', 'l', 't', 'e', 'r', 'n', 'a', 't', 'e']
}

// ---------------------------------------------------------------- entries

/// The texts gathered for an item or entry.
pub struct RawV {
    pub title: Option<Seq<char>>,
    pub rss_link: Option<Seq<char>>,
    pub guid: Option<Seq<char>>,
    pub id: Option<Seq<char>>,
    pub description: Option<Seq<char>>,
    pub summary: Option<Seq<char>>,
    pub content: Option<Seq<char>>,
    pub pubdate: Option<Seq<char>>,
    pub published: Option<Seq<char>>,
    pub updated: Option<Seq<char>>,
    pub alt_link: Option<Seq<char>>,
    pub first_link: Option<Seq<char>>,
}

pub open spec fn empty_raw() -> RawV {
    RawV {
        title: None,
        rss_link: None,
        guid: None,
        id: None,
        description: None,
        summary: None,
        content: None,
        pubdate: None,
        published: None,
        updated: None,
        alt_link: None,
        first_link: None,
    }
}

/// Trimmed text, `None` when nothing but whitespace is left.
pub open spec fn nonempty_of(s: Seq<char>) -> Option<Seq<char>> {
    if trim(s).len() == 0 {
        None
    } else {
        Some(trim(s))
    }
}

pub open spec fn or_else(a: Option<Seq<char>>, b: Option<Seq<char>>) -> Option<Seq<char>> {
    if a is Some {
        a
    } else {
        b
    }
}

pub open spec fn text_or_empty(a: Option<Seq<char>>) -> Seq<char> {
    match a {
        Some(t) => t,
        None => Seq::empty(),
    }
}

/// The seed of a derived identity: three texts joined by `|`.
pub open spec fn seed_of(a: Option<Seq<char>>, b: Option<Seq<char>>, c: Option<Seq<char>>) -> Seq<char> {
    text_or_empty(a) + seq!['|'] + text_or_empty(b) + seq!['|'] + text_or_empty(c)
}

/// A deterministic identity: `feedhub:auto:` and the 64-bit FNV-1a hash of
/// the seed's UTF-8 bytes in 16 hexadecimal digits.
pub open spec fn derived_identity(seed: Seq<char>) -> Seq<char> {
    "feedhub:auto:"@ + hex16(fnv1a_of(encode_utf8(seed)))
}

/// The entry an item becomes.
pub open spec fn finalize_of(format: Format, raw: RawV) -> ParsedEntryV {
    let link = match format {
        Format::Rss => raw.rss_link,
        Format::Atom => or_else(raw.alt_link, raw.first_link),
    };
    let summary = match format {
        Format::Rss => raw.description,
        Format::Atom => or_else(raw.summary, raw.content),
    };
    let date = match format {
        Format::Rss => raw.pubdate,
        Format::Atom => or_else(raw.published, raw.updated),
    };
    let own = match format {
        Format::Rss => or_else(raw.guid, raw.rss_link),
        Format::Atom => or_else(raw.id, link),
    };
    ParsedEntryV {
        guid: match own {
            Some(g) => g,
            None => derived_identity(seed_of(raw.title, summary, date)),
        },
        title: match raw.title {
            Some(t) => t,
            None => untitled_text(),
        },
        link,
        summary,
        published_at: match date {
            Some(d) => feed_date_of(d),
            None => None,
        },
    }
}

pub open spec fn finalize_all(format: Format, raws: Seq<RawV>) -> Seq<ParsedEntryV> {
    raws.map_values(|r: RawV| finalize_of(format, r))
}

/// The field that an element inside an item fills; `link` is a text field
/// in RSS only.
pub open spec fn target_for(name: Seq<char>, is_atom: bool) -> Option<Target> {
    if name == k_title() {
        Some(Target::Title)
    } else if name == seq!['g', 'u', 'i', 'd'] {
        Some(Target::Guid)
    } else if name == seq!['i', 'd'] && is_atom {
        Some(Target::Id)
    } else if name == seq!['d', 'e', 's', 'c', 'r', 'i', 'p', 't', 'i', 'o', 'n'] {
        Some(Target::Description)
    } else if name == seq!['s', 'u', 'm', 'm', 'a', 'r', 'y'] && is_atom {
        Some(Target::Summary)
    } else if name == seq!['c', 'o', 'n', 't', 'e', 'n', 't'] && is_atom {
        Some(Target::Content)
    } else if name == seq!['p', 'u', 'b', 'd', 'a', 't', 'e'] {
        Some(Target::PubDate)
    } else if name == seq!['p', 'u', 'b', 'l', 'i', 's', 'h', 'e', 'd'] && is_atom {
        Some(Target::Published)
    } else if name == seq!['u', 'p', 'd', 'a', 't', 'e', 'd'] && is_atom {
        Some(Target::Updated)
    } else if name == k_link() && !is_atom {
        Some(Target::RssLink)
    } else {
        None
    }
}

/// The `rel` and `href` of a link: for each well-formed attribute whose
/// lowercased local key is `rel` or `href`, its resolved value (or none when
/// it does not resolve); the last one counts.
pub open spec fn link_attrs_of(a: Seq<AttrItemV>) -> (Option<Seq<char>>, Option<Seq<char>>)
    decreases a.len(),
{
    if a.len() == 0 {
        (None, None)
    } else {
        let (rel, href) = link_attrs_of(a.drop_last());
        match a.last() {
            Ok((k, v)) => {
                let value = match v {
                    Ok(x) => Some(x),
                    Err(_) => None,
                };
                if local_name_of(k) == seq!['r', 'e', 'l'] {
                    (value, href)
                } else if local_name_of(k) == seq!['h', 'r', 'e', 'f'] {
                    (rel, value)
                } else {
                    (rel, href)
                }
            },
            Err(_) => (rel, href),
        }
    }
}

/// An Atom link: the first alternate one (no `rel` means alternate) and
/// the first one overall are kept.
pub open spec fn atom_link_of(raw: RawV, attrs: Seq<AttrItemV>) -> RawV {
    let (rel, href) = link_attrs_of(attrs);
    match href {
        None => raw,
        Some(h) => {
            let alternate = match rel {
                Some(r) => r == k_alternate(),
                None => true,
            };
            let raw1 = if alternate && raw.alt_link is None {
                RawV { alt_link: Some(h), ..raw }
            } else {
                raw
            };
            if raw1.first_link is None {
                RawV { first_link: Some(h), ..raw1 }
            } else {
                raw1
            }
        },
    }
}

// ---------------------------------------------------------------- state

pub struct LpStateV {
    pub format: Option<Format>,
    /// Lowercased local names of the open elements.
    pub stack: Seq<Seq<char>>,
    pub feed_title: Option<Seq<char>>,
    /// Finished items, in document order.
    pub raws: Seq<RawV>,
    pub cur: Option<RawV>,
    pub target: Option<Target>,
    /// Stack depth of the element whose text is captured; 0 when none.
    pub capture_depth: int,
    pub buf: Seq<char>,
    /// The text node being read: its text so far and whether all its
    /// references resolved.
    pub node: Option<(Seq<char>, bool)>,
}

pub open spec fn lp_initial() -> LpStateV {
    LpStateV {
        format: None,
        stack: Seq::empty(),
        feed_title: None,
        raws: Seq::empty(),
        cur: None,
        target: None,
        capture_depth: 0,
        buf: Seq::empty(),
        node: None,
    }
}

/// An element starts: the root names set the format, `item`/`entry` open a
/// new item, and inside an item a field element starts a capture (a link in
/// Atom records its attributes); outside items the first channel or feed
/// title is captured. An empty element (`capture` false) captures nothing.
pub open spec fn start_effects(
    st: LpStateV,
    name: Seq<char>,
    attrs: Seq<AttrItemV>,
    capture: bool,
) -> LpStateV {
    if name == seq!['r', 's', 's'] || name == seq!['r', 'd', 'f'] {
        LpStateV { format: if st.format is None { Some(Format::Rss) } else { st.format }, ..st }
    } else if name == k_feed() {
        LpStateV { format: if st.format is None { Some(Format::Atom) } else { st.format }, ..st }
    } else if name == k_item() || name == k_entry() {
        LpStateV { cur: Some(empty_raw()), ..st }
    } else {
        match st.cur {
            Some(raw) => {
                let is_atom = st.format == Some(Format::Atom);
                if name == k_link() && is_atom {
                    LpStateV { cur: Some(atom_link_of(raw, attrs)), ..st }
                } else {
                    match target_for(name, is_atom) {
                        Some(t) => if capture {
                            LpStateV { target: Some(t), buf: Seq::empty(), ..st }
                        } else {
                            st
                        },
                        None => st,
                    }
                }
            },
            None => if capture && name == k_title() && st.feed_title is None && st.stack.len() > 0 && (
            st.stack.last() == k_channel() || st.stack.last() == k_feed()) {
                LpStateV { target: Some(Target::FeedTitle), buf: Seq::empty(), ..st }
            } else {
                st
            },
        }
    }
}

pub open spec fn set_target(raw: RawV, t: Target, v: Option<Seq<char>>) -> RawV {
    match t {
        Target::Title => RawV { title: v, ..raw },
        Target::RssLink => RawV { rss_link: v, ..raw },
        Target::Guid => RawV { guid: v, ..raw },
        Target::Id => RawV { id: v, ..raw },
        Target::Description => RawV { description: v, ..raw },
        Target::Summary => RawV { summary: v, ..raw },
        Target::Content => RawV { content: v, ..raw },
        Target::PubDate => RawV { pubdate: v, ..raw },
        Target::Published => RawV { published: v, ..raw },
        Target::Updated => RawV { updated: v, ..raw },
        Target::FeedTitle => raw,
    }
}

/// The captured text is complete: it replaces the feed title or the item's
/// field (trimmed, absent when blank).
pub open spec fn commit_of(st: LpStateV, t: Target) -> LpStateV {
    let v = nonempty_of(st.buf);
    let st1 = LpStateV { buf: Seq::empty(), target: None, capture_depth: 0, ..st };
    match t {
        Target::FeedTitle => LpStateV { feed_title: v, ..st1 },
        _ => match st.cur {
            Some(raw) => LpStateV { cur: Some(set_target(raw, t, v)), ..st1 },
            None => st1,
        },
    }
}

/// The text node ends: its text joins the capture when every reference in
/// it resolved.
pub open spec fn flush_of(st: LpStateV) -> LpStateV {
    match st.node {
        Some((t, ok)) => LpStateV { buf: if ok { st.buf + t } else { st.buf }, node: None, ..st },
        None => st,
    }
}

/// A piece of a text node.
pub open spec fn node_add(st: LpStateV, piece: Option<Seq<char>>) -> LpStateV {
    if st.target is Some {
        let (acc, ok) = match st.node {
            Some(n) => n,
            None => (Seq::<char>::empty(), true),
        };
        LpStateV {
            node: Some(
                match piece {
                    Some(p) => (acc + p, ok),
                    None => (acc, false),
                },
            ),
            ..st
        }
    } else {
        st
    }
}

/// The message for a document that ends inside an element.
pub open spec fn unclosed_text(name: Seq<char>) -> Seq<char> {
    "unexpected end of document: <"@ + name + "> was never closed"@
}

pub open spec fn start_attrs_of(q: Seq<char>, content: Seq<char>) -> Seq<AttrItemV> {
    tag_attribute_items(content, (encode_utf8(q).len() as usize) as int)
}

pub enum LpStepV {
    Next(LpStateV),
    Done(LpStateV),
    Fail(ParseErrorV),
}

/// One event of the parse.
pub open spec fn lp_step(st: LpStateV, ev: XmlEv) -> LpStepV {
    match ev {
        XmlEv::Text(t) => LpStepV::Next(node_add(st, Some(t))),
        XmlEv::Ref(r) => LpStepV::Next(node_add(st, entity_text(r))),
        _ => {
            let s = flush_of(st);
            match ev {
                XmlEv::Error(msg) => LpStepV::Fail(ParseErrorV::Xml(msg)),
                XmlEv::Eof => if s.stack.len() > 0 {
                    LpStepV::Fail(ParseErrorV::Xml(unclosed_text(s.stack.last())))
                } else {
                    LpStepV::Done(s)
                },
                XmlEv::Start(q, c) => {
                    let name = local_name_of(q);
                    let s1 = start_effects(s, name, start_attrs_of(q, c), true);
                    let s2 = LpStateV { stack: s1.stack.push(name), ..s1 };
                    LpStepV::Next(
                        if s2.target is Some && s2.capture_depth == 0 {
                            LpStateV { capture_depth: s2.stack.len() as int, ..s2 }
                        } else {
                            s2
                        },
                    )
                },
                XmlEv::Empty(q, c) => LpStepV::Next(start_effects(s, local_name_of(q), start_attrs_of(q, c), false)),
                XmlEv::End(_) => {
                    let s1 = match s.target {
                        Some(t) => if s.stack.len() == s.capture_depth {
                            commit_of(s, t)
                        } else {
                            s
                        },
                        None => s,
                    };
                    if s1.stack.len() == 0 {
                        LpStepV::Next(s1)
                    } else {
                        let ended = s1.stack.last();
                        let s2 = LpStateV { stack: s1.stack.drop_last(), ..s1 };
                        LpStepV::Next(
                            if ended == k_item() || ended == k_entry() {
                                match s2.cur {
                                    Some(raw) => LpStateV { raws: s2.raws.push(raw), cur: None, ..s2 },
                                    None => s2,
                                }
                            } else {
                                s2
                            },
                        )
                    }
                },
                XmlEv::CData(t) => LpStepV::Next(
                    if s.target is Some {
                        LpStateV { buf: s.buf + t, ..s }
                    } else {
                        s
                    },
                ),
                _ => LpStepV::Next(s),
            }
        },
    }
}

pub enum LpRunV {
    Going(LpStateV),
    Done(LpStateV),
    Failed(ParseErrorV),
}

/// The parse after the first `n` events.
pub open spec fn lp_run(evs: Seq<XmlEv>, n: int) -> LpRunV
    decreases n,
{
    if n <= 0 {
        LpRunV::Going(lp_initial())
    } else {
        match lp_run(evs, n - 1) {
            LpRunV::Going(st) => match lp_step(st, evs[n - 1]) {
                LpStepV::Next(s) => LpRunV::Going(s),
                LpStepV::Done(s) => LpRunV::Done(s),
                LpStepV::Fail(e) => LpRunV::Failed(e),
            },
            other => other,
        }
    }
}

pub open spec fn lp_finish(st: LpStateV) -> Result<ParsedFeedV, ParseErrorV> {
    match st.format {
        Some(f) => Ok(ParsedFeedV { title: st.feed_title, entries: finalize_all(f, st.raws) }),
        None => Err(ParseErrorV::UnknownFormat),
    }
}

/// What parsing an event stream gives.
pub open spec fn lp_outcome(evs: Seq<XmlEv>) -> Result<ParsedFeedV, ParseErrorV> {
    match lp_run(evs, evs.len() as int) {
        LpRunV::Going(st) => lp_finish(st),
        LpRunV::Done(st) => lp_finish(st),
        LpRunV::Failed(e) => Err(e),
    }
}

/// What [`parse_feed`] returns for a document.
pub open spec fn lp_feed_of(doc: Seq<u8>) -> Result<ParsedFeedV, ParseErrorV> {
    lp_outcome(xml_events(without_bom(doc)))
}

} // verus!

verus! {

// ---------------------------------------------------------------- executable

/// The texts gathered for an item or entry.
pub struct RawEntry {
    title: Option<String>,
    rss_link: Option<String>,
    guid: Option<String>,
    id: Option<String>,
    description: Option<String>,
    summary: Option<String>,
    content: Option<String>,
    pubdate: Option<String>,
    published: Option<String>,
    updated: Option<String>,
    alt_link: Option<String>,
    first_link: Option<String>,
}

impl View for RawEntry {
    type V = RawV;

    closed spec fn view(&self) -> RawV {
        RawV {
            title: opt_view(self.title),
            rss_link: opt_view(self.rss_link),
            guid: opt_view(self.guid),
            id: opt_view(self.id),
            description: opt_view(self.description),
            summary: opt_view(self.summary),
            content: opt_view(self.content),
            pubdate: opt_view(self.pubdate),
            published: opt_view(self.published),
            updated: opt_view(self.updated),
            alt_link: opt_view(self.alt_link),
            first_link: opt_view(self.first_link),
        }
    }
}

fn new_raw() -> (r: RawEntry)
    ensures
        r@ == empty_raw(),
{
    RawEntry {
        title: None,
        rss_link: None,
        guid: None,
        id: None,
        description: None,
        summary: None,
        content: None,
        pubdate: None,
        published: None,
        updated: None,
        alt_link: None,
        first_link: None,
    }
}

/// Trimmed text, `None` when it is blank.
fn nonempty(s: &[char]) -> (r: Option<String>)
    ensures
        opt_view(r) == nonempty_of(s@),
{
    let t = trim_vec(s);
    if t.len() == 0 {
        None
    } else {
        Some(string_of(t.as_slice()))
    }
}

fn push_opt(v: &mut Vec<char>, o: &Option<String>)
    ensures
        final(v)@ == old(v)@ + text_or_empty(opt_view(*o)),
{
    match o {
        Some(t) => push_str(v, t.as_str()),
        None => {
            assert(old(v)@ + Seq::<char>::empty() =~= old(v)@);
        },
    }
}

/// A deterministic identity derived from a seed text.
fn fallback_identity(a: &Option<String>, b: &Option<String>, c: &Option<String>) -> (r: String)
    ensures
        r@ == derived_identity(seed_of(opt_view(*a), opt_view(*b), opt_view(*c))),
{
    let mut seed: Vec<char> = Vec::new();
    push_opt(&mut seed, a);
    seed.push('|');
    push_opt(&mut seed, b);
    seed.push('|');
    push_opt(&mut seed, c);
    assert(seed@ =~= seed_of(opt_view(*a), opt_view(*b), opt_view(*c)));
    let s = string_of(seed.as_slice());
    let h = fnv1a(s.as_str().as_bytes());
    let hex = hex16_chars(h);
    let mut v = str_chars("feedhub:auto:");
    let mut i: usize = 0;
    let ghost base = v@;
    while i < hex.len()
        invariant
            i <= hex@.len(),
            v@ == base + hex@.take(i as int),
        decreases hex@.len() - i,
    {
        v.push(hex[i]);
        assert(hex@.take(i + 1) =~= hex@.take(i as int).push(hex@[i as int]));
        i = i + 1;
    }
    assert(hex@.take(i as int) =~= hex@);
    string_of(v.as_slice())
}

fn or_else_exec(a: Option<String>, b: Option<String>) -> (r: Option<String>)
    ensures
        opt_view(r) == or_else(opt_view(a), opt_view(b)),
{
    match a {
        Some(x) => Some(x),
        None => b,
    }
}

/// The entry an item becomes.
fn finalize(format: Format, raw: &RawEntry) -> (r: ParsedEntry)
    ensures
        r@ == finalize_of(format, raw@),
        r.published_at matches Some(i) ==> i.valid(),
{
    let ghost rv = raw@;
    let (link, summary, date, own) = match format {
        Format::Rss => {
            let own = or_else_exec(raw.guid.clone(), raw.rss_link.clone());
            (raw.rss_link.clone(), raw.description.clone(), raw.pubdate.clone(), own)
        },
        Format::Atom => {
            let link = or_else_exec(raw.alt_link.clone(), raw.first_link.clone());
            let summary = or_else_exec(raw.summary.clone(), raw.content.clone());
            let date = or_else_exec(raw.published.clone(), raw.updated.clone());
            let own = or_else_exec(raw.id.clone(), link.clone());
            (link, summary, date, own)
        },
    };
    let guid = match own {
        Some(g) => g,
        None => fallback_identity(&raw.title, &summary, &date),
    };
    let title = match raw.title.clone() {
        Some(t) => t,
        None => untitled(),
    };
    let published_at = match &date {
        Some(d) => parse_feed_date(d.as_str()),
        None => None,
    };
    ParsedEntry { guid, title, link, summary, published_at }
}

fn target_for_exec(name: &[char], is_atom: bool) -> (r: Option<Target>)
    ensures
        r == target_for(name@, is_atom),
{
    if eq_chars(name, &['t', 'i', 't', 'l', 'e']) {
        Some(Target::Title)
    } else if eq_chars(name, &['g', 'u', 'i', 'd']) {
        Some(Target::Guid)
    } else if eq_chars(name, &['i', 'd']) && is_atom {
        Some(Target::Id)
    } else if eq_chars(name, &['d', 'e', 's', 'c', 'r', 'i', 'p', 't', 'i', 'o', 'n']) {
        Some(Target::Description)
    } else if eq_chars(name, &['s', 'u', 'm', 'm', 'a', 'r', 'y']) && is_atom {
        Some(Target::Summary)
    } else if eq_chars(name, &['c', 'o', 'n', 't', 'e', 'n', 't']) && is_atom {
        Some(Target::Content)
    } else if eq_chars(name, &['p', 'u', 'b', 'd', 'a', 't', 'e']) {
        Some(Target::PubDate)
    } else if eq_chars(name, &['p', 'u', 'b', 'l', 'i', 's', 'h', 'e', 'd']) && is_atom {
        Some(Target::Published)
    } else if eq_chars(name, &['u', 'p', 'd', 'a', 't', 'e', 'd']) && is_atom {
        Some(Target::Updated)
    } else if eq_chars(name, &['l', 'i', 'n', 'k']) && !is_atom {
        Some(Target::RssLink)
    } else {
        None
    }
}

fn read_link_attrs(attrs: &Vec<AttrItem>) -> (r: (Option<String>, Option<String>))
    ensures
        (opt_view(r.0), opt_view(r.1)) == link_attrs_of(attr_items_view(attrs@)),
{
    let ghost av = attr_items_view(attrs@);
    let mut rel: Option<String> = None;
    let mut href: Option<String> = None;
    let mut i: usize = 0;
    assert(av.take(0) =~= Seq::<AttrItemV>::empty());
    while i < attrs.len()
        invariant
            i <= attrs@.len(),
            av == attr_items_view(attrs@),
            av.len() == attrs@.len(),
            (opt_view(rel), opt_view(href)) == link_attrs_of(av.take(i as int)),
        decreases attrs@.len() - i,
    {
        assert(av.take(i + 1).drop_last() =~= av.take(i as int));
        assert(av.take(i + 1).last() == av[i as int]);
        match &attrs[i] {
            Ok((k, v)) => {
                let kc = local_name(k.as_str());
                let value = match v {
                    Ok(x) => Some(x.clone()),
                    Err(_) => None,
                };
                if eq_chars(kc.as_slice(), &['r', 'e', 'l']) {
                    rel = value;
                } else if eq_chars(kc.as_slice(), &['h', 'r', 'e', 'f']) {
                    href = value;
                }
            },
            Err(_) => {},
        }
        i = i + 1;
    }
    assert(av.take(i as int) =~= av);
    (rel, href)
}

/// Record an Atom `<link>` of an entry.
fn record_atom_link(raw: &mut RawEntry, q: &str, content: &str)
    requires
        q@.is_prefix_of(content@),
    ensures
        final(raw)@ == atom_link_of(old(raw)@, start_attrs_of(q@, content@)),
{
    proof {
        lemma_name_boundary(q@, content@);
    }
    let attrs = tag_attributes_unescaped(content, utf8_len(q));
    let (rel, href) = read_link_attrs(&attrs);
    let h = match href {
        Some(h) => h,
        None => return,
    };
    let alternate = match &rel {
        Some(r) => {
            let rc = str_chars(r.as_str());
            eq_chars(rc.as_slice(), &['a', 'l', 't', 'e', 'r', 'n', 'a', 't', 'e'])
        },
        None => true,
    };
    if alternate && raw.alt_link.is_none() {
        raw.alt_link = Some(h.clone());
    }
    if raw.first_link.is_none() {
        raw.first_link = Some(h);
    }
}

} // verus!

verus! {

pub open spec fn names_view(v: Seq<Vec<char>>) -> Seq<Seq<char>> {
    v.map_values(|w: Vec<char>| w@)
}

pub open spec fn raws_view(v: Seq<RawEntry>) -> Seq<RawV> {
    v.map_values(|r: RawEntry| r@)
}

/// The parse state.
pub struct LpState {
    format: Option<Format>,
    stack: Vec<Vec<char>>,
    feed_title: Option<String>,
    raws: Vec<RawEntry>,
    cur: Option<RawEntry>,
    target: Option<Target>,
    capture_depth: usize,
    buf: Vec<char>,
    node: Option<(Vec<char>, bool)>,
}

impl View for LpState {
    type V = LpStateV;

    closed spec fn view(&self) -> LpStateV {
        LpStateV {
            format: self.format,
            stack: names_view(self.stack@),
            feed_title: opt_view(self.feed_title),
            raws: raws_view(self.raws@),
            cur: match self.cur {
                Some(r) => Some(r@),
                None => None,
            },
            target: self.target,
            capture_depth: self.capture_depth as int,
            buf: self.buf@,
            node: match self.node {
                Some((t, ok)) => Some((t@, ok)),
                None => None,
            },
        }
    }
}

fn start_effects_exec(st: &mut LpState, name: &[char], q: &str, content: &str, capture: bool)
    requires
        q@.is_prefix_of(content@),
    ensures
        final(st)@ == start_effects(old(st)@, name@, start_attrs_of(q@, content@), capture),
{
    if eq_chars(name, &['r', 's', 's']) || eq_chars(name, &['r', 'd', 'f']) {
        if st.format.is_none() {
            st.format = Some(Format::Rss);
        }
        return;
    }
    if eq_chars(name, &['f', 'e', 'e', 'd']) {
        if st.format.is_none() {
            st.format = Some(Format::Atom);
        }
        return;
    }
    if eq_chars(name, &['i', 't', 'e', 'm']) || eq_chars(name, &['e', 'n', 't', 'r', 'y']) {
        st.cur = Some(new_raw());
        return;
    }
    let is_atom = st.format == Some(Format::Atom);
    match st.cur.take() {
        Some(mut raw) => {
            if eq_chars(name, &['l', 'i', 'n', 'k']) && is_atom {
                record_atom_link(&mut raw, q, content);
            } else {
                match target_for_exec(name, is_atom) {
                    Some(t) => {
                        if capture {
                            st.target = Some(t);
                            st.buf = Vec::new();
                            assert(st.buf@ =~= Seq::<char>::empty());
                        }
                    },
                    None => {},
                }
            }
            st.cur = Some(raw);
        },
        None => {
            let n = st.stack.len();
            let at_top = n > 0 && (eq_chars(st.stack[n - 1].as_slice(), &['c', 'h', 'a', 'n', 'n', 'e', 'l'])
                || eq_chars(st.stack[n - 1].as_slice(), &['f', 'e', 'e', 'd']));
            proof {
                if n > 0 {
                    assert(names_view(st.stack@).last() == st.stack@[n - 1]@);
                }
            }
            if capture && eq_chars(name, &['t', 'i', 't', 'l', 'e']) && st.feed_title.is_none() && at_top {
                st.target = Some(Target::FeedTitle);
                st.buf = Vec::new();
                assert(st.buf@ =~= Seq::<char>::empty());
            }
        },
    }
}

fn set_target_exec(raw: &mut RawEntry, t: Target, v: Option<String>)
    ensures
        final(raw)@ == set_target(old(raw)@, t, opt_view(v)),
{
    match t {
        Target::Title => raw.title = v,
        Target::RssLink => raw.rss_link = v,
        Target::Guid => raw.guid = v,
        Target::Id => raw.id = v,
        Target::Description => raw.description = v,
        Target::Summary => raw.summary = v,
        Target::Content => raw.content = v,
        Target::PubDate => raw.pubdate = v,
        Target::Published => raw.published = v,
        Target::Updated => raw.updated = v,
        Target::FeedTitle => {},
    }
}

fn commit(st: &mut LpState, t: Target)
    ensures
        final(st)@ == commit_of(old(st)@, t),
{
    let v = nonempty(st.buf.as_slice());
    st.buf = Vec::new();
    assert(st.buf@ =~= Seq::<char>::empty());
    st.target = None;
    st.capture_depth = 0;
    match t {
        Target::FeedTitle => st.feed_title = v,
        _ => match st.cur.take() {
            Some(mut raw) => {
                set_target_exec(&mut raw, t, v);
                st.cur = Some(raw);
            },
            None => {},
        },
    }
}

fn flush(st: &mut LpState)
    ensures
        final(st)@ == flush_of(old(st)@),
{
    match st.node.take() {
        Some((t, ok)) => {
            if ok {
                push_chars(&mut st.buf, t.as_slice());
            }
        },
        None => {},
    }
}

fn node_add_exec(st: &mut LpState, piece: Option<String>)
    ensures
        final(st)@ == node_add(old(st)@, opt_view(piece)),
{
    if st.target.is_none() {
        return;
    }
    let (mut acc, ok) = match st.node.take() {
        Some(n) => n,
        None => (Vec::new(), true),
    };
    assert(old(st)@.node is None ==> acc@ =~= Seq::<char>::empty());
    match piece {
        Some(p) => {
            push_str(&mut acc, p.as_str());
            st.node = Some((acc, ok));
        },
        None => {
            st.node = Some((acc, false));
        },
    }
}

pub(crate) fn unclosed(name: &[char]) -> (r: String)
    ensures
        r@ == unclosed_text(name@),
{
    let mut v = str_chars("unexpected end of document: <");
    push_chars(&mut v, name);
    push_str(&mut v, "> was never closed");
    string_of(v.as_slice())
}

enum LpStep {
    Next,
    Done,
    Fail(ParseError),
}

/// Apply one event.
fn lp_step_exec(st: &mut LpState, ev: &XmlEvent) -> (r: LpStep)
    requires
        name_leads(ev@),
    ensures
        r is Next ==> lp_step(old(st)@, ev@) == LpStepV::Next(final(st)@),
        r is Done ==> lp_step(old(st)@, ev@) == LpStepV::Done(final(st)@),
        r matches LpStep::Fail(e) ==> lp_step(old(st)@, ev@) == LpStepV::Fail(e@),
{
    match ev {
        XmlEvent::Text(t) => {
            node_add_exec(st, Some(t.clone()));
            return LpStep::Next;
        },
        XmlEvent::Ref(r) => {
            let x = entity(r.as_str());
            node_add_exec(st, x);
            return LpStep::Next;
        },
        _ => {},
    }
    flush(st);
    match ev {
        XmlEvent::Error(msg) => LpStep::Fail(ParseError::Xml(msg.clone())),
        XmlEvent::Eof => {
            let n = st.stack.len();
            if n > 0 {
                assert(names_view(st.stack@).last() == st.stack@[n - 1]@);
                LpStep::Fail(ParseError::Xml(unclosed(st.stack[n - 1].as_slice())))
            } else {
                LpStep::Done
            }
        },
        XmlEvent::Start(q, c) => {
            let name = local_name(q.as_str());
            start_effects_exec(st, name.as_slice(), q.as_str(), c.as_str(), true);
            let ghost before = names_view(st.stack@);
            st.stack.push(name);
            assert(names_view(st.stack@) =~= before.push(local_name_of(q@)));
            if st.target.is_some() && st.capture_depth == 0 {
                st.capture_depth = st.stack.len();
            }
            LpStep::Next
        },
        XmlEvent::Empty(q, c) => {
            let name = local_name(q.as_str());
            start_effects_exec(st, name.as_slice(), q.as_str(), c.as_str(), false);
            LpStep::Next
        },
        XmlEvent::End(_) => {
            match st.target {
                Some(t) => {
                    if st.stack.len() == st.capture_depth {
                        commit(st, t);
                    }
                },
                None => {},
            }
            let n = st.stack.len();
            if n == 0 {
                return LpStep::Next;
            }
            let ghost before = names_view(st.stack@);
            let ended = match st.stack.pop() {
                Some(e) => e,
                None => {
                    return LpStep::Next;
                },
            };
            assert(names_view(st.stack@) =~= before.drop_last());
            assert(ended@ == before.last());
            if eq_chars(ended.as_slice(), &['i', 't', 'e', 'm']) || eq_chars(
                ended.as_slice(),
                &['e', 'n', 't', 'r', 'y'],
            ) {
                match st.cur.take() {
                    Some(raw) => {
                        let ghost rv = raws_view(st.raws@);
                        let ghost one = raw@;
                        st.raws.push(raw);
                        assert(raws_view(st.raws@) =~= rv.push(one));
                    },
                    None => {},
                }
            }
            LpStep::Next
        },
        XmlEvent::CData(t) => {
            if st.target.is_some() {
                push_str(&mut st.buf, t.as_str());
            }
            LpStep::Next
        },
        _ => LpStep::Next,
    }
}

/// Once the parse has stopped, later events change nothing.
proof fn lemma_lp_stopped(evs: Seq<XmlEv>, i: int, n: int)
    requires
        0 <= i <= n,
        !(lp_run(evs, i) is Going),
    ensures
        lp_run(evs, n) == lp_run(evs, i),
    decreases n - i,
{
    if n > i {
        lemma_lp_stopped(evs, i, n - 1);
    }
}

fn finish(st: LpState) -> (r: Result<ParsedFeed, ParseError>)
    ensures
        result_view(r) == lp_finish(st@),
        r matches Ok(f) ==> crate::parser::dates_valid(f@.entries),
{
    let format = match st.format {
        Some(f) => f,
        None => return Err(ParseError::UnknownFormat),
    };
    let ghost rv = raws_view(st.raws@);
    let mut entries: Vec<ParsedEntry> = Vec::new();
    let mut j: usize = 0;
    assert(finalize_all(format, rv.take(0)) =~= Seq::<ParsedEntryV>::empty());
    while j < st.raws.len()
        invariant
            j <= st.raws@.len(),
            rv == raws_view(st.raws@),
            rv.len() == st.raws@.len(),
            parsed_entries_view(entries@) == finalize_all(format, rv.take(j as int)),
            crate::parser::dates_valid(parsed_entries_view(entries@)),
        decreases st.raws@.len() - j,
    {
        let e = finalize(format, &st.raws[j]);
        let ghost ev = parsed_entries_view(entries@);
        entries.push(e);
        assert(rv[j as int] == st.raws@[j as int]@);
        assert(parsed_entries_view(entries@) =~= ev.push(e@));
        assert(rv.take(j + 1) =~= rv.take(j as int).push(rv[j as int]));
        assert(finalize_all(format, rv.take(j + 1)) =~= finalize_all(format, rv.take(j as int)).push(
            finalize_of(format, rv[j as int]),
        ));
        j = j + 1;
    }
    assert(rv.take(j as int) =~= rv);
    Ok(ParsedFeed { title: st.feed_title, entries })
}

/// Parse an event stream.
pub fn parse_events(evs: &Vec<XmlEvent>) -> (r: Result<ParsedFeed, ParseError>)
    requires
        names_lead(events_view(evs@)),
    ensures
        result_view(r) == lp_outcome(events_view(evs@)),
        r matches Ok(f) ==> crate::parser::dates_valid(f@.entries),
{
    let ghost e = events_view(evs@);
    let mut st = LpState {
        format: None,
        stack: Vec::new(),
        feed_title: None,
        raws: Vec::new(),
        cur: None,
        target: None,
        capture_depth: 0,
        buf: Vec::new(),
        node: None,
    };
    assert(names_view(st.stack@) =~= Seq::<Seq<char>>::empty());
    assert(raws_view(st.raws@) =~= Seq::<RawV>::empty());
    assert(st.buf@ =~= Seq::<char>::empty());
    assert(st@ == lp_initial());
    let mut i: usize = 0;
    while i < evs.len()
        invariant_except_break
            lp_run(e, i as int) == LpRunV::Going(st@),
        invariant
            i <= evs@.len(),
            e == events_view(evs@),
            e.len() == evs@.len(),
            names_lead(e),
        ensures
            i < evs@.len() ==> lp_run(e, i + 1) == LpRunV::Done(st@),
            i == evs@.len() ==> lp_run(e, i as int) == LpRunV::Going(st@),
        decreases evs@.len() - i,
    {
        assert(e[i as int] == evs@[i as int]@);
        assert(name_leads(e[i as int]));
        match lp_step_exec(&mut st, &evs[i]) {
            LpStep::Next => {},
            LpStep::Done => {
                break;
            },
            LpStep::Fail(err) => {
                proof {
                    assert(lp_run(e, i + 1) == LpRunV::Failed(err@));
                    lemma_lp_stopped(e, i + 1, e.len() as int);
                }
                return Err(err);
            },
        }
        i = i + 1;
    }
    proof {
        if i < evs@.len() {
            lemma_lp_stopped(e, i + 1, e.len() as int);
        }
    }
    finish(st)
}

/// Parse a feed document.
pub fn parse_feed(bytes: &[u8]) -> (r: Result<ParsedFeed, ParseError>)
    ensures
        result_view(r) == lp_feed_of(bytes@),
        r matches Ok(f) ==> crate::parser::dates_valid(f@.entries),
{
    let body = crate::feed::strip_bom(bytes);
    let evs = read_events(body);
    parse_events(&evs)
}

impl ParseError {
    /// The error's message.
    pub fn message(&self) -> (r: String)
        ensures
            r@ == match self@ {
                ParseErrorV::Xml(m) => "malformed XML: "@ + m,
                ParseErrorV::UnknownFormat => "unrecognized feed format"@,
            },
    {
        match self {
            ParseError::Xml(m) => {
                let mut v = str_chars("malformed XML: ");
                push_str(&mut v, m.as_str());
                string_of(v.as_slice())
            },
            ParseError::UnknownFormat => "unrecognized feed format".to_owned(),
        }
    }
}

} // verus!

verus! {

/// A leading UTF-8 byte-order mark does not change what a document parses
/// to.
pub proof fn law_bom_tolerated(doc: Seq<u8>)
    requires
        !(doc.len() >= 3 && doc[0] == 0xEF && doc[1] == 0xBB && doc[2] == 0xBF),
    ensures
        lp_feed_of(seq![0xEFu8, 0xBBu8, 0xBFu8] + doc) == lp_feed_of(doc),
{
    let b = seq![0xEFu8, 0xBBu8, 0xBFu8] + doc;
    assert(b.skip(3) =~= doc);
}

/// An item's own identity (RSS `guid` or `link`, Atom `id` or link) is
/// kept; without one, its identity is derived from its title, summary and
/// date text alone, so the same texts always give the same identity. A
/// missing title is `(untitled)`; a missing date is no date.
pub proof fn law_identity_and_defaults(format: Format, a: RawV, b: RawV)
    ensures
        format == Format::Rss && a.guid is Some ==> finalize_of(format, a).guid == a.guid->0,
        format == Format::Rss && a.guid is None && a.rss_link is Some ==> finalize_of(format, a).guid
            == a.rss_link->0,
        format == Format::Atom && a.id is Some ==> finalize_of(format, a).guid == a.id->0,
        a.title is None ==> finalize_of(format, a).title == untitled_text(),
        format == Format::Rss && a.pubdate is None ==> finalize_of(format, a).published_at is None,
        format == Format::Atom && a.published is None && a.updated is None ==> finalize_of(format, a).published_at
            is None,
        format == Format::Rss && a.guid is None && a.rss_link is None && b.guid is None && b.rss_link is None
            && a.title == b.title && a.description == b.description && a.pubdate == b.pubdate ==> finalize_of(
            format,
            a,
        ).guid == finalize_of(format, b).guid,
{
}

/// A text node in which some reference does not resolve contributes
/// nothing to the captured text.
pub proof fn law_unresolved_node_is_dropped(st: LpStateV, later: Seq<char>)
    requires
        st.target is Some,
    ensures
        flush_of(node_add(node_add(st, None), Some(later))).buf == st.buf,
        flush_of(node_add(st, None)).buf == st.buf,
{
}

/// A document that ends inside an element is an error.
pub proof fn law_unclosed_document_fails(st: LpStateV)
    requires
        flush_of(st).stack.len() > 0,
    ensures
        lp_step(st, XmlEv::Eof) is Fail,
{
}

/// An entry's date is its own date element, with Atom's `<updated>`
/// standing in when `<published>` is absent: RSS reads `pubDate`, Atom reads
/// `published`, else `updated`, and no other field ever dates an entry.
pub proof fn law_entry_date_with_fallback(format: Format, a: RawV)
    ensures
        format == Format::Rss && a.pubdate is Some ==> finalize_of(format, a).published_at == feed_date_of(a.pubdate->0),
        format == Format::Atom && a.published is Some ==> finalize_of(format, a).published_at
            == feed_date_of(a.published->0),
        format == Format::Atom && a.published is None && a.updated is Some ==> finalize_of(
            format,
            a,
        ).published_at == feed_date_of(a.updated->0),
        format == Format::Atom && a.published is None && a.updated is None ==> finalize_of(format, a).published_at
            is None,
        format == Format::Rss && a.pubdate is None ==> finalize_of(format, a).published_at is None,
{
}

} // verus!
