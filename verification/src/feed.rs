//! RSS 2.0 and Atom parsing over the `quick-xml` event stream.
//!
//! The parser is tolerant: it maps the fields it knows and ignores the rest.
//! Text is entity-resolved as it is read (CDATA is taken verbatim); dates
//! are normalized by [`crate::date`]; missing titles become `(untitled)`
//! when an item is finished.
//!
//! The meaning of a parse is the fold of [`step`] over the events; the
//! executable parser performs exactly that fold.
use vstd::prelude::*;
use crate::date::{date_of, date_overflows, parse_date, rfc822_overflows};
use crate::instant::Instant;
use crate::strs::{lower, lower_vec, push_str, str_chars, string_of, trim, trim_vec, eq_chars};
use crate::text::{opt_view, title_or_untitled, title_text};
use crate::xml::{
    events_view, lemma_name_boundary, name_leads, names_lead, read_events, utf8_len, resolve_ref, resolve_reference, start_attrs, start_attributes, xml_events, XmlEv,
    XmlEvent,
};

verus! {

/// The two feed dialects.
#[derive(Clone, Copy, Debug, PartialEq, Eq, Structural)]
pub enum Format {
    Rss,
    Atom,
}

/// A single parsed item/entry, with identity and text already normalized.
#[derive(Clone, Debug)]
pub struct ParsedItem {
    /// RSS `guid` (fallback `link`), Atom `id`; a content-derived key when
    /// the source gives none.
    pub guid: String,
    /// Title after reference resolution; `(untitled)` when missing.
    pub title: String,
    pub link: Option<String>,
    pub summary: Option<String>,
    /// Publication instant in UTC, `None` when missing or unparseable.
    pub published_at: Option<Instant>,
}

/// A parsed feed: an optional channel/feed title plus its items in
/// document order.
#[derive(Clone, Debug)]
pub struct ParsedFeed {
    pub title: Option<String>,
    pub items: Vec<ParsedItem>,
}

/// Errors that can arise while parsing feed bytes.
#[derive(Clone, Debug)]
pub enum ParseError {
    /// The XML was malformed (the reader's message).
    Xml(String),
    /// The XML did not look like an RSS or Atom feed.
    UnknownFormat,
}

pub struct ItemV {
    pub guid: Seq<char>,
    pub title: Seq<char>,
    pub link: Option<Seq<char>>,
    pub summary: Option<Seq<char>>,
    pub published_at: Option<Instant>,
}

pub struct FeedV {
    pub title: Option<Seq<char>>,
    pub items: Seq<ItemV>,
}

pub enum ParseErrorV {
    Xml(Seq<char>),
    UnknownFormat,
}

impl View for ParsedItem {
    type V = ItemV;

    open spec fn view(&self) -> ItemV {
        ItemV {
            guid: self.guid@,
            title: self.title@,
            link: opt_view(self.link),
            summary: opt_view(self.summary),
            published_at: self.published_at,
        }
    }
}

pub open spec fn items_view(v: Seq<ParsedItem>) -> Seq<ItemV> {
    v.map_values(|i: ParsedItem| i@)
}

impl View for ParsedFeed {
    type V = FeedV;

    open spec fn view(&self) -> FeedV {
        FeedV { title: opt_view(self.title), items: items_view(self.items@) }
    }
}

impl View for ParseError {
    type V = ParseErrorV;

    open spec fn view(&self) -> ParseErrorV {
        match self {
            ParseError::Xml(m) => ParseErrorV::Xml(m@),
            ParseError::UnknownFormat => ParseErrorV::UnknownFormat,
        }
    }
}

pub open spec fn result_view(r: Result<ParsedFeed, ParseError>) -> Result<FeedV, ParseErrorV> {
    match r {
        Ok(f) => Ok(f@),
        Err(e) => Err(e@),
    }
}

// ---------------------------------------------------------------- names

/// Index of the last occurrence of `c`.
pub open spec fn rfind_char(s: Seq<char>, c: char) -> Option<int>
    decreases s.len(),
{
    if s.len() == 0 {
        None
    } else if s.last() == c {
        Some(s.len() - 1)
    } else {
        rfind_char(s.drop_last(), c)
    }
}

/// The part of a qualified name after its last `:`, in ASCII lower case.
pub open spec fn local_name_of(q: Seq<char>) -> Seq<char> {
    match rfind_char(q, ':') {
        Some(i) => lower(q.skip(i + 1)),
        None => lower(q),
    }
}

pub open spec fn detect_format_of(name: Seq<char>) -> Option<Format> {
    if name == seq!['f', 'e', 'e', 'd'] {
        Some(Format::Atom)
    } else if name == seq!['r', 's', 's'] || name == seq!['r', 'd', 'f'] || name == seq![
        'c',
        'h',
        'a',
        'n',
        'n',
        'e',
        'l',
    ] {
        Some(Format::Rss)
    } else {
        None
    }
}

pub open spec fn is_container_of(fmt: Format, name: Seq<char>) -> bool {
    match fmt {
        Format::Rss => name == seq!['i', 't', 'e', 'm'],
        Format::Atom => name == seq!['e', 'n', 't', 'r', 'y'],
    }
}

pub open spec fn is_title(name: Seq<char>) -> bool {
    name == seq!['t', 'i', 't', 'l', 'e']
}

pub open spec fn is_link(name: Seq<char>) -> bool {
    name == seq!['l', 'i', 'n', 'k']
}

pub open spec fn is_text_element_of(fmt: Format, name: Seq<char>) -> bool {
    if is_title(name) {
        true
    } else {
        match fmt {
            Format::Rss => is_link(name) || name == seq![
                'd',
                'e',
                's',
                'c',
                'r',
                'i',
                'p',
                't',
                'i',
                'o',
                'n',
            ] || name == seq!['g', 'u', 'i', 'd'] || name == seq!['p', 'u', 'b', 'd', 'a', 't', 'e'],
            Format::Atom => name == seq!['i', 'd'] || name == seq![
                's',
                'u',
                'm',
                'm',
                'a',
                'r',
                'y',
            ] || name == seq!['c', 'o', 'n', 't', 'e', 'n', 't'] || name == seq![
                'p',
                'u',
                'b',
                'l',
                'i',
                's',
                'h',
                'e',
                'd',
            ] || name == seq!['u', 'p', 'd', 'a', 't', 'e', 'd'],
        }
    }
}

// ---------------------------------------------------------------- items

/// The fields gathered for an item before it is finished.
pub struct BuilderV {
    pub identity: Option<Seq<char>>,
    pub link: Option<Seq<char>>,
    pub link_alternate: Option<Seq<char>>,
    pub link_first: Option<Seq<char>>,
    pub title: Option<Seq<char>>,
    pub summary: Option<Seq<char>>,
    pub content: Option<Seq<char>>,
    pub date_primary: Option<Seq<char>>,
    pub date_fallback: Option<Seq<char>>,
}

pub open spec fn empty_builder() -> BuilderV {
    BuilderV {
        identity: None,
        link: None,
        link_alternate: None,
        link_first: None,
        title: None,
        summary: None,
        content: None,
        date_primary: None,
        date_fallback: None,
    }
}

pub open spec fn or_else(a: Option<Seq<char>>, b: Option<Seq<char>>) -> Option<Seq<char>> {
    match a {
        Some(x) => Some(x),
        None => b,
    }
}

pub open spec fn text_or_empty(a: Option<Seq<char>>) -> Seq<char> {
    match a {
        Some(x) => x,
        None => Seq::empty(),
    }
}

/// The key used for an item that has neither an identity nor a link.
pub open spec fn synth_identity_of(title: Option<Seq<char>>, summary: Option<Seq<char>>) -> Seq<char> {
    "synthetic:"@ + text_or_empty(title) + seq!['\u{1}'] + text_or_empty(summary)
}

pub open spec fn item_link(b: BuilderV) -> Option<Seq<char>> {
    or_else(or_else(b.link, b.link_alternate), b.link_first)
}

pub open spec fn item_date_text(b: BuilderV) -> Option<Seq<char>> {
    or_else(b.date_primary, b.date_fallback)
}

/// The finished item: link from `link`, the alternate link, or the first
/// link; identity from the identity, the link, or the synthetic key;
/// summary from `summary` or `content`; date from the primary or fallback
/// date text.
pub open spec fn finalize_of(b: BuilderV) -> ItemV {
    let link = item_link(b);
    ItemV {
        guid: match b.identity {
            Some(i) => i,
            None => match link {
                Some(l) => l,
                None => synth_identity_of(b.title, b.summary),
            },
        },
        title: title_text(b.title),
        link: link,
        summary: or_else(b.summary, b.content),
        published_at: match item_date_text(b) {
            Some(d) => date_of(d),
            None => None,
        },
    }
}

/// Finishing the item would take its date out of the calendar's range.
pub open spec fn finalize_overflows(b: BuilderV) -> bool {
    match item_date_text(b) {
        Some(d) => date_overflows(d),
        None => false,
    }
}

/// Store the trimmed text of a leaf element into the item's field.
pub open spec fn set_field_of(fmt: Format, name: Seq<char>, t: Seq<char>, b: BuilderV) -> BuilderV {
    match fmt {
        Format::Rss => if is_link(name) {
            BuilderV { link: Some(t), ..b }
        } else if name == seq!['d', 'e', 's', 'c', 'r', 'i', 'p', 't', 'i', 'o', 'n'] {
            BuilderV { summary: Some(t), ..b }
        } else if name == seq!['g', 'u', 'i', 'd'] {
            BuilderV { identity: Some(t), ..b }
        } else if name == seq!['p', 'u', 'b', 'd', 'a', 't', 'e'] {
            BuilderV { date_primary: Some(t), ..b }
        } else {
            b
        },
        Format::Atom => if name == seq!['i', 'd'] {
            BuilderV { identity: Some(t), ..b }
        } else if name == seq!['s', 'u', 'm', 'm', 'a', 'r', 'y'] {
            BuilderV { summary: Some(t), ..b }
        } else if name == seq!['c', 'o', 'n', 't', 'e', 'n', 't'] {
            BuilderV { content: Some(t), ..b }
        } else if name == seq!['p', 'u', 'b', 'l', 'i', 's', 'h', 'e', 'd'] {
            BuilderV { date_primary: Some(t), ..b }
        } else if name == seq!['u', 'p', 'd', 'a', 't', 'e', 'd'] {
            BuilderV { date_fallback: Some(t), ..b }
        } else {
            b
        },
    }
}

/// The value of the last attribute whose local name is `key`.
pub open spec fn attr_of(attrs: Seq<(Seq<char>, Seq<char>)>, key: Seq<char>) -> Option<Seq<char>>
    decreases attrs.len(),
{
    if attrs.len() == 0 {
        None
    } else if local_name_of(attrs.last().0) == key {
        Some(attrs.last().1)
    } else {
        attr_of(attrs.drop_last(), key)
    }
}

pub open spec fn rel_key() -> Seq<char> {
    seq!['r', 'e', 'l']
}

pub open spec fn href_key() -> Seq<char> {
    seq!['h', 'r', 'e', 'f']
}

/// An Atom `<link>`: its `href` becomes the alternate link (when `rel` is
/// absent or `alternate`; the first such link wins) or else the first
/// other link.
pub open spec fn apply_link_of(b: BuilderV, attrs: Seq<(Seq<char>, Seq<char>)>) -> BuilderV {
    match attr_of(attrs, href_key()) {
        None => b,
        Some(h) => {
            let alternate = match attr_of(attrs, rel_key()) {
                Some(r) => r == seq!['a', 'l', 't', 'e', 'r', 'n', 'a', 't', 'e'],
                None => true,
            };
            if alternate {
                if b.link_alternate is None {
                    BuilderV { link_alternate: Some(h), ..b }
                } else {
                    b
                }
            } else if b.link_first is None {
                BuilderV { link_first: Some(h), ..b }
            } else {
                b
            }
        },
    }
}

// ---------------------------------------------------------------- machine

pub enum ModeV {
    Normal,
    /// Reading the text of a leaf element: dialect, element, nesting
    /// depth and the text so far.
    InText(Format, Seq<char>, int, Seq<char>),
}

pub struct MachineV {
    pub format: Option<Format>,
    pub title: Option<Seq<char>>,
    pub items: Seq<ItemV>,
    pub cur: Option<BuilderV>,
    pub mode: ModeV,
    /// `Some(None)` at end of input, `Some(Some(message))` on an error.
    pub end: Option<Option<Seq<char>>>,
}

pub open spec fn initial() -> MachineV {
    MachineV { format: None, title: None, items: Seq::empty(), cur: None, mode: ModeV::Normal, end: None }
}

/// The message for a reference that is neither a character reference nor
/// a predefined entity.
pub open spec fn ref_error_text(name: Seq<char>) -> Seq<char> {
    "unresolved reference &"@ + name + seq![';']
}

/// A leaf element's text is complete: the feed title (the first one seen
/// outside items) or a field of the current item.
pub open spec fn assign_text_of(fmt: Format, name: Seq<char>, text: Seq<char>, m: MachineV) -> MachineV {
    let t = trim(text);
    if is_title(name) {
        match m.cur {
            Some(b) => MachineV { cur: Some(BuilderV { title: Some(t), ..b }), ..m },
            None => if m.title is None {
                MachineV { title: Some(t), ..m }
            } else {
                m
            },
        }
    } else {
        match m.cur {
            Some(b) => MachineV { cur: Some(set_field_of(fmt, name, t, b)), ..m },
            None => m,
        }
    }
}

pub open spec fn known_format(m: MachineV, name: Seq<char>) -> Option<Format> {
    if m.format is None {
        detect_format_of(name)
    } else {
        m.format
    }
}

pub open spec fn start_of(m: MachineV, name: Seq<char>, attrs: Seq<(Seq<char>, Seq<char>)>) -> MachineV {
    let m1 = MachineV { format: known_format(m, name), ..m };
    match m1.format {
        None => m1,
        Some(fmt) => if is_container_of(fmt, name) {
            MachineV { cur: Some(empty_builder()), ..m1 }
        } else if fmt == Format::Atom && is_link(name) {
            match m1.cur {
                Some(b) => MachineV { cur: Some(apply_link_of(b, attrs)), ..m1 },
                None => m1,
            }
        } else if is_text_element_of(fmt, name) {
            MachineV { mode: ModeV::InText(fmt, name, 1, Seq::empty()), ..m1 }
        } else {
            m1
        },
    }
}

pub open spec fn empty_of(m: MachineV, name: Seq<char>, attrs: Seq<(Seq<char>, Seq<char>)>) -> MachineV {
    let m1 = MachineV { format: known_format(m, name), ..m };
    if m1.format == Some(Format::Atom) && is_link(name) {
        match m1.cur {
            Some(b) => MachineV { cur: Some(apply_link_of(b, attrs)), ..m1 },
            None => m1,
        }
    } else {
        m1
    }
}

pub open spec fn end_of(m: MachineV, name: Seq<char>) -> MachineV {
    match m.format {
        Some(fmt) => if is_container_of(fmt, name) {
            match m.cur {
                Some(b) => MachineV { items: m.items.push(finalize_of(b)), cur: None, ..m },
                None => m,
            }
        } else {
            m
        },
        None => m,
    }
}

/// The attributes of a start tag with the given qualified name and content.
pub open spec fn tag_attrs(q: Seq<char>, content: Seq<char>) -> Seq<(Seq<char>, Seq<char>)> {
    start_attrs(content, (vstd::utf8::encode_utf8(q).len() as usize) as int)
}

/// Every finished item's date is an instant `chrono` can represent.
pub open spec fn dates_valid(items: Seq<ItemV>) -> bool {
    forall|k: int| 0 <= k < items.len() ==> ((#[trigger] items[k]).published_at matches Some(i) ==> i.valid())
}

/// One event of the parse.
pub open spec fn step(m: MachineV, ev: XmlEv) -> MachineV {
    if m.end is Some {
        m
    } else {
        match m.mode {
            ModeV::Normal => match ev {
                XmlEv::Eof => MachineV { end: Some(None), ..m },
                XmlEv::Error(msg) => MachineV { end: Some(Some(msg)), ..m },
                XmlEv::Start(q, c) => start_of(m, local_name_of(q), tag_attrs(q, c)),
                XmlEv::Empty(q, c) => empty_of(m, local_name_of(q), tag_attrs(q, c)),
                XmlEv::End(q) => end_of(m, local_name_of(q)),
                _ => m,
            },
            ModeV::InText(fmt, name, depth, acc) => match ev {
                XmlEv::Text(t) => MachineV { mode: ModeV::InText(fmt, name, depth, acc + t), ..m },
                XmlEv::CData(t) => MachineV { mode: ModeV::InText(fmt, name, depth, acc + t), ..m },
                XmlEv::Ref(r) => match resolve_ref(r) {
                    Some(x) => MachineV { mode: ModeV::InText(fmt, name, depth, acc + x), ..m },
                    None => MachineV { end: Some(Some(ref_error_text(r))), ..m },
                },
                XmlEv::Start(_, _) => MachineV { mode: ModeV::InText(fmt, name, depth + 1, acc), ..m },
                XmlEv::End(_) => if depth - 1 == 0 {
                    assign_text_of(fmt, name, acc, MachineV { mode: ModeV::Normal, ..m })
                } else {
                    MachineV { mode: ModeV::InText(fmt, name, depth - 1, acc), ..m }
                },
                XmlEv::Eof => MachineV {
                    end: Some(None),
                    ..assign_text_of(fmt, name, acc, MachineV { mode: ModeV::Normal, ..m })
                },
                XmlEv::Error(msg) => MachineV { end: Some(Some(msg)), ..m },
                _ => m,
            },
        }
    }
}

/// The step would finish an item whose date leaves the calendar's range.
pub open spec fn step_overflows(m: MachineV, ev: XmlEv) -> bool {
    &&& m.end is None
    &&& m.mode is Normal
    &&& ev matches XmlEv::End(q)
    &&& m.format matches Some(fmt)
    &&& is_container_of(fmt, local_name_of(q))
    &&& m.cur matches Some(b)
    &&& finalize_overflows(b)
}

/// The state after the first `n` events.
pub open spec fn run(evs: Seq<XmlEv>, n: int) -> MachineV
    decreases n,
{
    if n <= 0 {
        initial()
    } else {
        step(run(evs, n - 1), evs[n - 1])
    }
}

/// No item of the stream has a date that leaves the calendar's range.
pub open spec fn dates_in_range(evs: Seq<XmlEv>) -> bool {
    forall|i: int| 0 <= i < evs.len() ==> !step_overflows(#[trigger] run(evs, i), evs[i])
}

pub open spec fn outcome(m: MachineV) -> Result<FeedV, ParseErrorV> {
    match m.end {
        Some(Some(msg)) => Err(ParseErrorV::Xml(msg)),
        _ => match m.format {
            Some(_) => Ok(FeedV { title: m.title, items: m.items }),
            None => Err(ParseErrorV::UnknownFormat),
        },
    }
}

/// What parsing an event stream gives; the stream is read as ending at its
/// last event if it has no end-of-input event.
pub open spec fn feed_of_events(evs: Seq<XmlEv>) -> Result<FeedV, ParseErrorV> {
    outcome(step(run(evs, evs.len() as int), XmlEv::Eof))
}

/// A document with a leading UTF-8 byte-order mark removed.
pub open spec fn without_bom(b: Seq<u8>) -> Seq<u8> {
    if b.len() >= 3 && b[0] == 0xEF && b[1] == 0xBB && b[2] == 0xBF {
        b.skip(3)
    } else {
        b
    }
}

/// What [`parse_feed`] returns for a document.
pub open spec fn feed_of(doc: Seq<u8>) -> Result<FeedV, ParseErrorV> {
    feed_of_events(xml_events(without_bom(doc)))
}

pub open spec fn doc_dates_in_range(doc: Seq<u8>) -> bool {
    dates_in_range(xml_events(without_bom(doc)))
}

} // verus!

verus! {

// ---------------------------------------------------------------- executable

/// The fields gathered for an item before it is finished.
pub struct ItemBuilder {
    identity: Option<String>,
    link: Option<String>,
    link_alternate: Option<String>,
    link_first: Option<String>,
    title: Option<String>,
    summary: Option<String>,
    content: Option<String>,
    date_primary: Option<String>,
    date_fallback: Option<String>,
}

impl View for ItemBuilder {
    type V = BuilderV;

    closed spec fn view(&self) -> BuilderV {
        BuilderV {
            identity: opt_view(self.identity),
            link: opt_view(self.link),
            link_alternate: opt_view(self.link_alternate),
            link_first: opt_view(self.link_first),
            title: opt_view(self.title),
            summary: opt_view(self.summary),
            content: opt_view(self.content),
            date_primary: opt_view(self.date_primary),
            date_fallback: opt_view(self.date_fallback),
        }
    }
}

fn new_builder() -> (b: ItemBuilder)
    ensures
        b@ == empty_builder(),
{
    ItemBuilder {
        identity: None,
        link: None,
        link_alternate: None,
        link_first: None,
        title: None,
        summary: None,
        content: None,
        date_primary: None,
        date_fallback: None,
    }
}

fn rfind_char_exec(v: &[char], c: char) -> (r: Option<usize>)
    ensures
        r matches Some(i) ==> rfind_char(v@, c) == Some(i as int) && i < v@.len(),
        r is None ==> rfind_char(v@, c) is None,
{
    let mut j: usize = v.len();
    assert(v@.take(j as int) =~= v@);
    while j > 0
        invariant
            j <= v@.len(),
            rfind_char(v@, c) == rfind_char(v@.take(j as int), c),
        decreases j,
    {
        assert(v@.take(j as int).drop_last() =~= v@.take(j - 1));
        if v[j - 1] == c {
            return Some(j - 1);
        }
        j = j - 1;
    }
    None
}

/// The local part of a qualified name, in ASCII lower case.
pub(crate) fn local_name(q: &str) -> (r: Vec<char>)
    ensures
        r@ == local_name_of(q@),
{
    let v = str_chars(q);
    match rfind_char_exec(v.as_slice(), ':') {
        Some(i) => {
            let n = v.len();
            let t = crate::strs::subvec(v.as_slice(), i + 1, n);
            assert(t@ =~= v@.skip(i + 1));
            lower_vec(t.as_slice())
        },
        None => lower_vec(v.as_slice()),
    }
}

fn detect_format(name: &[char]) -> (r: Option<Format>)
    ensures
        r == detect_format_of(name@),
{
    if eq_chars(name, &['f', 'e', 'e', 'd']) {
        Some(Format::Atom)
    } else if eq_chars(name, &['r', 's', 's']) || eq_chars(name, &['r', 'd', 'f']) || eq_chars(
        name,
        &['c', 'h', 'a', 'n', 'n', 'e', 'l'],
    ) {
        Some(Format::Rss)
    } else {
        None
    }
}

fn is_container(fmt: Format, name: &[char]) -> (r: bool)
    ensures
        r == is_container_of(fmt, name@),
{
    match fmt {
        Format::Rss => eq_chars(name, &['i', 't', 'e', 'm']),
        Format::Atom => eq_chars(name, &['e', 'n', 't', 'r', 'y']),
    }
}

fn is_title_exec(name: &[char]) -> (r: bool)
    ensures
        r == is_title(name@),
{
    eq_chars(name, &['t', 'i', 't', 'l', 'e'])
}

fn is_link_exec(name: &[char]) -> (r: bool)
    ensures
        r == is_link(name@),
{
    eq_chars(name, &['l', 'i', 'n', 'k'])
}

fn is_text_element(fmt: Format, name: &[char]) -> (r: bool)
    ensures
        r == is_text_element_of(fmt, name@),
{
    if is_title_exec(name) {
        return true;
    }
    match fmt {
        Format::Rss => is_link_exec(name) || eq_chars(
            name,
            &['d', 'e', 's', 'c', 'r', 'i', 'p', 't', 'i', 'o', 'n'],
        ) || eq_chars(name, &['g', 'u', 'i', 'd']) || eq_chars(
            name,
            &['p', 'u', 'b', 'd', 'a', 't', 'e'],
        ),
        Format::Atom => eq_chars(name, &['i', 'd']) || eq_chars(
            name,
            &['s', 'u', 'm', 'm', 'a', 'r', 'y'],
        ) || eq_chars(name, &['c', 'o', 'n', 't', 'e', 'n', 't']) || eq_chars(
            name,
            &['p', 'u', 'b', 'l', 'i', 's', 'h', 'e', 'd'],
        ) || eq_chars(name, &['u', 'p', 'd', 'a', 't', 'e', 'd']),
    }
}

/// Append the characters of `s`.

fn synth_identity(title: &Option<String>, summary: &Option<String>) -> (r: String)
    ensures
        r@ == synth_identity_of(opt_view(*title), opt_view(*summary)),
{
    let mut v: Vec<char> = str_chars("synthetic:");
    match title {
        Some(t) => push_str(&mut v, t.as_str()),
        None => {},
    }
    v.push('\u{1}');
    match summary {
        Some(s) => push_str(&mut v, s.as_str()),
        None => {},
    }
    assert(v@ =~= synth_identity_of(opt_view(*title), opt_view(*summary)));
    string_of(v.as_slice())
}

/// Whether finishing the item would take its date out of range.
fn builder_overflows(b: &ItemBuilder) -> (r: bool)
    ensures
        r == finalize_overflows(b@),
{
    match &b.date_primary {
        Some(d) => crate::date::date_would_overflow(d.as_str()),
        None => match &b.date_fallback {
            Some(d) => crate::date::date_would_overflow(d.as_str()),
            None => false,
        },
    }
}

fn finalize(b: ItemBuilder) -> (r: ParsedItem)
    requires
        !finalize_overflows(b@),
    ensures
        r@ == finalize_of(b@),
        r.published_at matches Some(i) ==> i.valid(),
{
    let ghost bv = b@;
    let link = match b.link {
        Some(l) => Some(l),
        None => match b.link_alternate {
            Some(l) => Some(l),
            None => b.link_first,
        },
    };
    assert(opt_view(link) == item_link(bv));
    let guid = match b.identity {
        Some(i) => i,
        None => match &link {
            Some(l) => l.clone(),
            None => synth_identity(&b.title, &b.summary),
        },
    };
    let summary = match b.summary {
        Some(s) => Some(s),
        None => b.content,
    };
    let date_src = match b.date_primary {
        Some(d) => Some(d),
        None => b.date_fallback,
    };
    assert(opt_view(date_src) == item_date_text(bv));
    let published_at = match &date_src {
        Some(d) => parse_date(d.as_str()),
        None => None,
    };
    ParsedItem { guid, title: title_or_untitled(b.title), link, summary, published_at }
}

fn set_field(fmt: Format, name: &[char], t: String, b: &mut ItemBuilder)
    ensures
        final(b)@ == set_field_of(fmt, name@, t@, old(b)@),
{
    match fmt {
        Format::Rss => {
            if is_link_exec(name) {
                b.link = Some(t);
            } else if eq_chars(name, &['d', 'e', 's', 'c', 'r', 'i', 'p', 't', 'i', 'o', 'n']) {
                b.summary = Some(t);
            } else if eq_chars(name, &['g', 'u', 'i', 'd']) {
                b.identity = Some(t);
            } else if eq_chars(name, &['p', 'u', 'b', 'd', 'a', 't', 'e']) {
                b.date_primary = Some(t);
            }
        },
        Format::Atom => {
            if eq_chars(name, &['i', 'd']) {
                b.identity = Some(t);
            } else if eq_chars(name, &['s', 'u', 'm', 'm', 'a', 'r', 'y']) {
                b.summary = Some(t);
            } else if eq_chars(name, &['c', 'o', 'n', 't', 'e', 'n', 't']) {
                b.content = Some(t);
            } else if eq_chars(name, &['p', 'u', 'b', 'l', 'i', 's', 'h', 'e', 'd']) {
                b.date_primary = Some(t);
            } else if eq_chars(name, &['u', 'p', 'd', 'a', 't', 'e', 'd']) {
                b.date_fallback = Some(t);
            }
        },
    }
}

fn apply_atom_link(b: &mut ItemBuilder, attrs: &Vec<(String, String)>)
    ensures
        final(b)@ == apply_link_of(old(b)@, crate::xml::attrs_view(attrs@)),
{
    let ghost av = crate::xml::attrs_view(attrs@);
    let mut rel: Option<String> = None;
    let mut href: Option<String> = None;
    let mut k: usize = 0;
    assert(av.take(0) =~= Seq::<(Seq<char>, Seq<char>)>::empty());
    while k < attrs.len()
        invariant
            k <= attrs@.len(),
            av == crate::xml::attrs_view(attrs@),
            opt_view(rel) == attr_of(av.take(k as int), rel_key()),
            opt_view(href) == attr_of(av.take(k as int), href_key()),
        decreases attrs@.len() - k,
    {
        let key = local_name(attrs[k].0.as_str());
        assert(av.take(k + 1).drop_last() =~= av.take(k as int));
        assert(av.take(k + 1).last() == av[k as int]);
        assert(av[k as int] == (attrs@[k as int].0@, attrs@[k as int].1@));
        if eq_chars(key.as_slice(), &['r', 'e', 'l']) {
            rel = Some(attrs[k].1.clone());
        } else if eq_chars(key.as_slice(), &['h', 'r', 'e', 'f']) {
            href = Some(attrs[k].1.clone());
        }
        k = k + 1;
    }
    assert(av.take(k as int) =~= av);
    match href {
        None => {},
        Some(h) => {
            let alternate = match &rel {
                Some(r) => {
                    let rv = str_chars(r.as_str());
                    eq_chars(rv.as_slice(), &['a', 'l', 't', 'e', 'r', 'n', 'a', 't', 'e'])
                },
                None => true,
            };
            if alternate {
                if b.link_alternate.is_none() {
                    b.link_alternate = Some(h);
                }
            } else if b.link_first.is_none() {
                b.link_first = Some(h);
            }
        },
    }
}

/// The text of a leaf element being read.
struct TextRead {
    fmt: Format,
    name: Vec<char>,
    depth: usize,
    acc: Vec<char>,
}

/// The parse state.
struct Machine {
    format: Option<Format>,
    title: Option<String>,
    items: Vec<ParsedItem>,
    cur: Option<ItemBuilder>,
    mode: Option<TextRead>,
    end: Option<Option<String>>,
}

impl View for Machine {
    type V = MachineV;

    closed spec fn view(&self) -> MachineV {
        MachineV {
            format: self.format,
            title: opt_view(self.title),
            items: items_view(self.items@),
            cur: match self.cur {
                Some(b) => Some(b@),
                None => None,
            },
            mode: match self.mode {
                Some(t) => ModeV::InText(t.fmt, t.name@, t.depth as int, t.acc@),
                None => ModeV::Normal,
            },
            end: match self.end {
                Some(Some(m)) => Some(Some(m@)),
                Some(None) => Some(None),
                None => None,
            },
        }
    }
}

/// In text mode the depth is at least one and below `bound`.
spec fn depth_ok(m: MachineV, bound: int) -> bool {
    m.mode matches ModeV::InText(_, _, d, _) ==> 1 <= d <= bound
}

fn assign_text(m: &mut Machine, fmt: Format, name: &[char], text: &[char])
    ensures
        final(m)@ == assign_text_of(fmt, name@, text@, old(m)@),
{
    let tv = trim_vec(text);
    let t = string_of(tv.as_slice());
    let c = m.cur.take();
    if is_title_exec(name) {
        match c {
            Some(mut b) => {
                b.title = Some(t);
                m.cur = Some(b);
            },
            None => {
                if m.title.is_none() {
                    m.title = Some(t);
                }
            },
        }
    } else {
        match c {
            Some(mut b) => {
                set_field(fmt, name, t, &mut b);
                m.cur = Some(b);
            },
            None => {},
        }
    }
}

fn ref_error(name: &str) -> (r: String)
    ensures
        r@ == ref_error_text(name@),
{
    let mut v = str_chars("unresolved reference &");
    push_str(&mut v, name);
    v.push(';');
    string_of(v.as_slice())
}

fn tag_attributes(q: &String, content: &String) -> (r: Vec<(String, String)>)
    requires
        q@.is_prefix_of(content@),
    ensures
        crate::xml::attrs_view(r@) == tag_attrs(q@, content@),
{
    let n = utf8_len(q.as_str());
    proof {
        lemma_name_boundary(q@, content@);
    }
    start_attributes(content.as_str(), n)
}

/// Apply an event in normal mode.
fn step_normal(m: &mut Machine, ev: &XmlEvent) -> (overflow: bool)
    requires
        old(m)@.end is None,
        old(m)@.mode is Normal,
        name_leads(ev@),
    ensures
        overflow == step_overflows(old(m)@, ev@),
        !overflow ==> final(m)@ == step(old(m)@, ev@),
        !overflow ==> depth_ok(final(m)@, 1),
        dates_valid(old(m)@.items) && !overflow ==> dates_valid(final(m)@.items),
{
    match ev {
        XmlEvent::Eof => {
            m.end = Some(None);
            false
        },
        XmlEvent::Error(msg) => {
            m.end = Some(Some(msg.clone()));
            false
        },
        XmlEvent::Start(q, content) => {
            let name = local_name(q.as_str());
            if m.format.is_none() {
                m.format = detect_format(name.as_slice());
            }
            match m.format {
                None => {},
                Some(fmt) => {
                    if is_container(fmt, name.as_slice()) {
                        m.cur = Some(new_builder());
                    } else if fmt == Format::Atom && is_link_exec(name.as_slice()) {
                        let c = m.cur.take();
                        match c {
                            Some(mut b) => {
                                let attrs = tag_attributes(q, content);
                                apply_atom_link(&mut b, &attrs);
                                m.cur = Some(b);
                            },
                            None => {},
                        }
                    } else if is_text_element(fmt, name.as_slice()) {
                        m.mode = Some(TextRead { fmt, name, depth: 1, acc: Vec::new() });
                    }
                },
            }
            false
        },
        XmlEvent::Empty(q, content) => {
            let name = local_name(q.as_str());
            if m.format.is_none() {
                m.format = detect_format(name.as_slice());
            }
            if m.format == Some(Format::Atom) && is_link_exec(name.as_slice()) {
                let c = m.cur.take();
                match c {
                    Some(mut b) => {
                        let attrs = tag_attributes(q, content);
                        apply_atom_link(&mut b, &attrs);
                        m.cur = Some(b);
                    },
                    None => {},
                }
            }
            false
        },
        XmlEvent::End(q) => {
            let name = local_name(q.as_str());
            match m.format {
                Some(fmt) => {
                    if is_container(fmt, name.as_slice()) {
                        let over = match &m.cur {
                            Some(b) => builder_overflows(b),
                            None => false,
                        };
                        if over {
                            return true;
                        }
                        let c = m.cur.take();
                        match c {
                            Some(b) => {
                                let item = finalize(b);
                                let ghost before = items_view(m.items@);
                                m.items.push(item);
                                assert(items_view(m.items@) =~= before.push(item@));
                                assert(dates_valid(old(m)@.items) ==> dates_valid(m@.items));
                            },
                            None => {},
                        }
                    }
                },
                None => {},
            }
            false
        },
        _ => false,
    }
}

/// Apply an event while the text of a leaf element is being read.
fn step_text(m: &mut Machine, ev: &XmlEvent)
    requires
        old(m)@.end is None,
        old(m)@.mode is InText,
        depth_ok(old(m)@, usize::MAX as int),
        ev@ is Start ==> depth_ok(old(m)@, usize::MAX - 1),
    ensures
        !step_overflows(old(m)@, ev@),
        final(m)@ == step(old(m)@, ev@),
        old(m)@.mode matches ModeV::InText(_, _, d, _) ==> depth_ok(final(m)@, d + 1),
        final(m)@.items == old(m)@.items,
{
    let mut t = match m.mode.take() {
        Some(t) => t,
        None => {
            assert(false);
            return ;
        },
    };
    match ev {
        XmlEvent::Text(s) => {
            push_str(&mut t.acc, s.as_str());
            m.mode = Some(t);
        },
        XmlEvent::CData(s) => {
            push_str(&mut t.acc, s.as_str());
            m.mode = Some(t);
        },
        XmlEvent::Ref(r) => {
            match resolve_reference(r.as_str()) {
                Some(x) => {
                    push_str(&mut t.acc, x.as_str());
                    m.mode = Some(t);
                },
                None => {
                    m.mode = Some(t);
                    m.end = Some(Some(ref_error(r.as_str())));
                },
            }
        },
        XmlEvent::Start(_, _) => {
            t.depth = t.depth + 1;
            m.mode = Some(t);
        },
        XmlEvent::End(_) => {
            if t.depth - 1 == 0 {
                assign_text(m, t.fmt, t.name.as_slice(), t.acc.as_slice());
            } else {
                t.depth = t.depth - 1;
                m.mode = Some(t);
            }
        },
        XmlEvent::Eof => {
            assign_text(m, t.fmt, t.name.as_slice(), t.acc.as_slice());
            m.end = Some(None);
        },
        XmlEvent::Error(msg) => {
            m.mode = Some(t);
            m.end = Some(Some(msg.clone()));
        },
        _ => {
            m.mode = Some(t);
        },
    }
}

/// Once the parse has ended, later events change nothing.
proof fn lemma_run_ended(evs: Seq<XmlEv>, i: int, n: int)
    requires
        0 <= i <= n,
        run(evs, i).end is Some,
    ensures
        run(evs, n) == run(evs, i),
    decreases n - i,
{
    if n > i {
        lemma_run_ended(evs, i, n - 1);
    }
}

/// Run the parse over an event stream; `None` exactly when an item's date
/// would leave the calendar's range.
pub fn run_events(evs: &Vec<XmlEvent>) -> (r: Option<Result<ParsedFeed, ParseError>>)
    requires
        names_lead(events_view(evs@)),
    ensures
        r is None <==> !dates_in_range(events_view(evs@)),
        r matches Some(x) ==> result_view(x) == feed_of_events(events_view(evs@)),
        r matches Some(Ok(f)) ==> dates_valid(f@.items),
{
    let ghost e = events_view(evs@);
    let mut m = Machine { format: None, title: None, items: Vec::new(), cur: None, mode: None, end: None };
    assert(items_view(m.items@) =~= Seq::<ItemV>::empty());
    assert(m@ == run(e, 0));
    let mut i: usize = 0;
    while i < evs.len() && m.end.is_none()
        invariant
            i <= evs@.len(),
            e == events_view(evs@),
            e.len() == evs@.len(),
            names_lead(e),
            m@ == run(e, i as int),
            depth_ok(m@, i as int),
            dates_valid(m@.items),
            forall|j: int| 0 <= j < i ==> !step_overflows(#[trigger] run(e, j), e[j]),
        decreases evs@.len() - i,
    {
        assert(e[i as int] == evs@[i as int]@);
        assert(name_leads(e[i as int]));
        if m.mode.is_none() {
            let over = step_normal(&mut m, &evs[i]);
            if over {
                assert(step_overflows(run(e, i as int), e[i as int]));
                return None;
            }
        } else {
            step_text(&mut m, &evs[i]);
        }
        i = i + 1;
    }
    proof {
        if i < evs@.len() {
            assert forall|j: int| 0 <= j < e.len() implies !step_overflows(
                #[trigger] run(e, j),
                e[j],
            ) by {
                if j >= i {
                    lemma_run_ended(e, i as int, j);
                }
            }
            lemma_run_ended(e, i as int, e.len() as int);
        }
    }
    let ghost last = m@;
    let eof = XmlEvent::Eof;
    if m.end.is_none() {
        if m.mode.is_none() {
            let _ = step_normal(&mut m, &eof);
        } else {
            step_text(&mut m, &eof);
        }
    }
    assert(m@ == step(last, XmlEv::Eof));
    assert(dates_valid(m@.items));
    let out = match m.end {
        Some(Some(msg)) => Err(ParseError::Xml(msg)),
        _ => match m.format {
            Some(_) => Ok(ParsedFeed { title: m.title, items: m.items }),
            None => Err(ParseError::UnknownFormat),
        },
    };
    Some(out)
}

/// Parse an event stream whose item dates are all within range.
pub fn parse_events(evs: &Vec<XmlEvent>) -> (r: Result<ParsedFeed, ParseError>)
    requires
        dates_in_range(events_view(evs@)),
        names_lead(events_view(evs@)),
    ensures
        result_view(r) == feed_of_events(events_view(evs@)),
        r matches Ok(f) ==> dates_valid(f@.items),
{
    match run_events(evs) {
        Some(x) => x,
        None => {
            assert(false);
            Err(ParseError::UnknownFormat)
        },
    }
}

pub(crate) fn strip_bom(bytes: &[u8]) -> (r: &[u8])
    ensures
        r@ == without_bom(bytes@),
{
    if bytes.len() >= 3 && bytes[0] == 0xEF && bytes[1] == 0xBB && bytes[2] == 0xBF {
        let (_, rest) = bytes.split_at(3);
        rest
    } else {
        bytes
    }
}

/// Parse RSS 2.0 or Atom feed bytes into a [`ParsedFeed`].
///
/// A leading UTF-8 BOM is tolerated. Returns [`ParseError`] on malformed XML
/// or an unrecognized root element.
pub fn parse_feed(bytes: &[u8]) -> (r: Result<ParsedFeed, ParseError>)
    requires
        doc_dates_in_range(bytes@),
    ensures
        result_view(r) == feed_of(bytes@),
        r matches Ok(f) ==> dates_valid(f@.items),
{
    let body = strip_bom(bytes);
    let evs = read_events(body);
    parse_events(&evs)
}

/// [`parse_feed`] on any document: `None` when an item's date would leave
/// the calendar's range, where [`parse_feed`] cannot be called.
pub fn try_parse_feed(bytes: &[u8]) -> (r: Option<Result<ParsedFeed, ParseError>>)
    ensures
        r is None <==> !doc_dates_in_range(bytes@),
        r matches Some(x) ==> result_view(x) == feed_of(bytes@),
        r matches Some(Ok(f)) ==> dates_valid(f@.items),
{
    let body = strip_bom(bytes);
    let evs = read_events(body);
    run_events(&evs)
}

/// The message of a parse error.
pub open spec fn parse_error_text(e: ParseErrorV) -> Seq<char> {
    match e {
        ParseErrorV::Xml(m) => "malformed XML: "@ + m,
        ParseErrorV::UnknownFormat => "unrecognized feed format (expected RSS or Atom)"@,
    }
}

impl ParseError {
    /// The error's message.
    pub fn message(&self) -> (r: String)
        ensures
            r@ == parse_error_text(self@),
    {
        match self {
            ParseError::Xml(m) => {
                let mut v = str_chars("malformed XML: ");
                push_str(&mut v, m.as_str());
                string_of(v.as_slice())
            },
            ParseError::UnknownFormat => "unrecognized feed format (expected RSS or Atom)".to_owned(),
        }
    }
}

} // verus!

verus! {

/// A leading UTF-8 byte-order mark does not change what a document parses
/// to.
pub proof fn law_bom_tolerated(doc: Seq<u8>)
    requires
        !(doc.len() >= 3 && doc[0] == 0xEF && doc[1] == 0xBB && doc[2] == 0xBF),
    ensures
        feed_of(seq![0xEFu8, 0xBBu8, 0xBFu8] + doc) == feed_of(doc),
{
    let b = seq![0xEFu8, 0xBBu8, 0xBFu8] + doc;
    assert(b.skip(3) =~= doc);
}

/// A finished item's identity is its own identity, else its link, else a
/// key derived from its title and summary; a missing title is stored as
/// `(untitled)`; a missing date is stored as no date, never as anything
/// else.
pub proof fn law_item_identity_and_defaults(b: BuilderV)
    ensures
        b.identity matches Some(i) ==> finalize_of(b).guid == i,
        b.identity is None && item_link(b) is Some ==> finalize_of(b).guid == item_link(b)->0,
        b.identity is None && item_link(b) is None ==> finalize_of(b).guid == synth_identity_of(b.title, b.summary),
        b.title is None ==> finalize_of(b).title == crate::text::untitled_text(),
        item_date_text(b) is None ==> finalize_of(b).published_at is None,
{
}

/// Only the first title outside any item names the feed; titles inside
/// items never do.
pub proof fn law_feed_title_first_outside_items(fmt: Format, text: Seq<char>, m: MachineV)
    ensures
        m.cur is Some ==> assign_text_of(fmt, seq!['t', 'i', 't', 'l', 'e'], text, m).title == m.title,
        m.cur is None && m.title is Some ==> assign_text_of(fmt, seq!['t', 'i', 't', 'l', 'e'], text, m).title
            == m.title,
{
}

/// In an Atom entry `<updated>` dates the entry when it has no
/// `<published>`: the element's text is captured, and once it closes, the
/// entry finishes dated by that text; a `<published>` date already read
/// still wins.
pub proof fn law_atom_updated_dates_an_entry(
    m: MachineV,
    attrs: Seq<(Seq<char>, Seq<char>)>,
    acc: Seq<char>,
    q: Seq<char>,
    b: BuilderV,
)
    requires
        m.end is None,
        m.format == Some(Format::Atom),
        m.mode is Normal,
        m.cur == Some(b),
    ensures
        ({
            let updated = seq!['u', 'p', 'd', 'a', 't', 'e', 'd'];
            let reading = MachineV { mode: ModeV::InText(Format::Atom, updated, 1, acc), ..m };
            let closed = step(reading, XmlEv::End(q));
            &&& start_of(m, updated, attrs).mode == ModeV::InText(Format::Atom, updated, 1, Seq::<char>::empty())
            &&& closed.cur is Some
            &&& (b.date_primary is None ==> finalize_of(closed.cur->0).published_at == date_of(trim(acc)))
            &&& (b.date_primary matches Some(p) ==> finalize_of(closed.cur->0).published_at == date_of(p))
        }),
{
}

/// The builder an entry holds once a leaf element of it closes.
pub open spec fn after_leaf(m: MachineV, fmt: Format, name: Seq<char>, acc: Seq<char>, q: Seq<char>) -> BuilderV {
    step(MachineV { mode: ModeV::InText(fmt, name, 1, acc), ..m }, XmlEv::End(q)).cur->0
}

/// Each leaf of an entry reaches the finished entry through its own field,
/// as its trimmed text: in RSS `<guid>` is the identity, `<link>` the link,
/// `<description>` the summary and `<pubDate>` the date; in Atom `<id>` is
/// the identity, `<summary>` the summary (`<content>` when there is none),
/// `<published>` the date and `<updated>` the date when there is no
/// `<published>`; `<title>` is the title in both.
pub proof fn law_entry_leaves_fill_their_fields(m: MachineV, acc: Seq<char>, q: Seq<char>, b: BuilderV)
    requires
        m.end is None,
        m.mode is Normal,
        m.cur == Some(b),
    ensures
        ({
            let t = trim(acc);
            let rss = Format::Rss;
            let atom = Format::Atom;
            &&& finalize_of(after_leaf(m, rss, seq!['g', 'u', 'i', 'd'], acc, q)).guid == t
            &&& b.link is None ==> finalize_of(after_leaf(m, rss, seq!['l', 'i', 'n', 'k'], acc, q)).link == Some(t)
            &&& finalize_of(
                after_leaf(m, rss, seq!['d', 'e', 's', 'c', 'r', 'i', 'p', 't', 'i', 'o', 'n'], acc, q),
            ).summary == Some(t)
            &&& finalize_of(after_leaf(m, rss, seq!['p', 'u', 'b', 'd', 'a', 't', 'e'], acc, q)).published_at
                == date_of(t)
            &&& finalize_of(after_leaf(m, atom, seq!['i', 'd'], acc, q)).guid == t
            &&& finalize_of(after_leaf(m, atom, seq!['s', 'u', 'm', 'm', 'a', 'r', 'y'], acc, q)).summary == Some(t)
            &&& b.summary is None ==> finalize_of(after_leaf(m, atom, seq!['c', 'o', 'n', 't', 'e', 'n', 't'], acc, q)).summary
                == Some(t)
            &&& finalize_of(
                after_leaf(m, atom, seq!['p', 'u', 'b', 'l', 'i', 's', 'h', 'e', 'd'], acc, q),
            ).published_at == date_of(t)
            &&& b.date_primary is None ==> finalize_of(
                after_leaf(m, atom, seq!['u', 'p', 'd', 'a', 't', 'e', 'd'], acc, q),
            ).published_at == date_of(t)
            &&& finalize_of(after_leaf(m, rss, seq!['t', 'i', 't', 'l', 'e'], acc, q)).title == title_text(Some(t))
            &&& finalize_of(after_leaf(m, atom, seq!['t', 'i', 't', 'l', 'e'], acc, q)).title == title_text(Some(t))
        }),
{
}

} // verus!
