//! RSS 2.0 and Atom (RFC 4287) parsing over the namespace-resolved
//! `quick-xml` event stream.
//!
//! Only elements in the root element's namespace supply fields; a capture
//! opened by a field element collects the text of everything nested in it;
//! an item ends when the element stack returns to the depth it opened at.
//! A missing date is stored as no date and never as the fetch time.
//!
//! The meaning of a parse is the fold of [`step_of`] over the events; the
//! executable parser performs exactly that fold.
use vstd::prelude::*;
use vstd::utf8::{decode_utf8, valid_utf8};
use crate::datetime::{feed_date_of, parse_feed_date};
use crate::instant::Instant;
use crate::model::{parsed_entries_view, FeedKind, ParsedEntry, ParsedEntryV, ParsedFeed, ParsedFeedV};
use crate::strs::{eq_chars, find_char, find_char_exec, is_blank, is_blank_vec, push_str, str_chars, string_of, subvec, trim, trim_vec};
use crate::text::{opt_view, untitled, untitled_text};
use crate::xml::{
    char_ref, html5_entity, lemma_name_boundary, name_leads, ns_events, ns_events_view, ns_names_lead, read_ns_events,
    resolve_html5, resolve_reference, utf8_len,
    tag_attribute_items, tag_attributes_unescaped, AttrItem, AttrItemV, Ns, NsV, XmlEv, XmlEvent,
};

verus! {

/// Errors of [`parse_feed`].
#[derive(Clone, Debug, PartialEq, Eq)]
pub enum ParseError {
    /// The document is not valid UTF-8.
    NotUtf8,
    /// Malformed XML, with the reader's message.
    Xml(String),
    /// The root element is neither `<rss>` nor `<feed>`.
    UnknownFormat,
}

pub enum ParseErrorV {
    NotUtf8,
    Xml(Seq<char>),
    UnknownFormat,
}

impl View for ParseError {
    type V = ParseErrorV;

    open spec fn view(&self) -> ParseErrorV {
        match self {
            ParseError::NotUtf8 => ParseErrorV::NotUtf8,
            ParseError::Xml(m) => ParseErrorV::Xml(m@),
            ParseError::UnknownFormat => ParseErrorV::UnknownFormat,
        }
    }
}

/// Outcome of parsing, including entries dropped for lacking an identity.
#[derive(Clone, Debug)]
pub struct ParseOutcome {
    pub feed: ParsedFeed,
    /// Items that carried no usable identity and were dropped.
    pub skipped_without_identity: usize,
}

pub struct OutcomeV {
    pub feed: ParsedFeedV,
    pub skipped: nat,
}

impl View for ParseOutcome {
    type V = OutcomeV;

    open spec fn view(&self) -> OutcomeV {
        OutcomeV { feed: self.feed@, skipped: self.skipped_without_identity as nat }
    }
}

pub open spec fn outcome_view(r: Result<ParseOutcome, ParseError>) -> Result<OutcomeV, ParseErrorV> {
    match r {
        Ok(o) => Ok(o@),
        Err(e) => Err(e@),
    }
}

/// Which text field an active capture is filling.
#[derive(Clone, Copy, Debug, PartialEq, Eq, Structural)]
pub enum Field {
    FeedTitle,
    Guid,
    Id,
    Title,
    Link,
    Description,
    Summary,
    Content,
    PubDate,
    Published,
    Updated,
}

// ---------------------------------------------------------------- words

pub open spec fn w_rss() -> Seq<char> {
    seq!['r', 's', 's']
}

pub open spec fn w_feed() -> Seq<char> {
    seq!['f', 'e', 'e', 'd']
}

pub open spec fn w_channel() -> Seq<char> {
    seq!['c', 'h', 'a', 'n', 'n', 'e', 'l']
}

pub open spec fn w_item() -> Seq<char> {
    seq!['i', 't', 'e', 'm']
}

pub open spec fn w_entry() -> Seq<char> {
    seq!['e', 'n', 't', 'r', 'y']
}

pub open spec fn w_link() -> Seq<char> {
    seq!['l', 'i', 'n', 'k']
}

pub open spec fn w_title() -> Seq<char> {
    seq!['t', 'i', 't', 'l', 'e']
}

pub open spec fn w_rel() -> Seq<char> {
    seq!['r', 'e', 'l']
}

pub open spec fn w_href() -> Seq<char> {
    seq!['h', 'r', 'e', 'f']
}

pub open spec fn w_alternate() -> Seq<char> {
    seq!['a', 'l', 't', 'e', 'r', 'n', 'a', 't', 'e']
}

// ---------------------------------------------------------------- items

/// The fields gathered for an item before it is finished.
pub struct ItemBV {
    pub guid: Option<Seq<char>>,
    pub id: Option<Seq<char>>,
    pub title: Option<Seq<char>>,
    pub link: Option<Seq<char>>,
    /// Atom `<link>` elements in document order: `(rel, href)`.
    pub links: Seq<(Option<Seq<char>>, Seq<char>)>,
    pub description: Option<Seq<char>>,
    pub summary: Option<Seq<char>>,
    pub content: Option<Seq<char>>,
    pub pub_date: Option<Seq<char>>,
    pub published: Option<Seq<char>>,
    pub updated: Option<Seq<char>>,
}

pub open spec fn empty_item() -> ItemBV {
    ItemBV {
        guid: None,
        id: None,
        title: None,
        link: None,
        links: Seq::empty(),
        description: None,
        summary: None,
        content: None,
        pub_date: None,
        published: None,
        updated: None,
    }
}

/// Empty or whitespace-only text counts as absent.
pub open spec fn non_empty(s: Option<Seq<char>>) -> Option<Seq<char>> {
    match s {
        Some(v) => if is_blank(v) {
            None
        } else {
            Some(v)
        },
        None => None,
    }
}

pub open spec fn first_wins(slot: Option<Seq<char>>, text: Seq<char>) -> Option<Seq<char>> {
    if slot is None {
        Some(text)
    } else {
        slot
    }
}

/// Store the text of a field: blank text never claims a slot, and the first
/// occurrence wins.
pub open spec fn set_of(b: ItemBV, field: Field, text: Seq<char>) -> ItemBV {
    if is_blank(text) {
        b
    } else {
        match field {
            Field::Guid => ItemBV { guid: first_wins(b.guid, text), ..b },
            Field::Id => ItemBV { id: first_wins(b.id, text), ..b },
            Field::Title => ItemBV { title: first_wins(b.title, text), ..b },
            Field::Link => ItemBV { link: first_wins(b.link, text), ..b },
            Field::Description => ItemBV { description: first_wins(b.description, text), ..b },
            Field::Summary => ItemBV { summary: first_wins(b.summary, text), ..b },
            Field::Content => ItemBV { content: first_wins(b.content, text), ..b },
            Field::PubDate => ItemBV { pub_date: first_wins(b.pub_date, text), ..b },
            Field::Published => ItemBV { published: first_wins(b.published, text), ..b },
            Field::Updated => ItemBV { updated: first_wins(b.updated, text), ..b },
            Field::FeedTitle => b,
        }
    }
}

/// A link relation that counts as `alternate` (absent means `alternate`).
pub open spec fn is_alternate(rel: Option<Seq<char>>) -> bool {
    match rel {
        None => true,
        Some(r) => r == w_alternate(),
    }
}

/// The href of the first alternate link.
pub open spec fn first_alternate(links: Seq<(Option<Seq<char>>, Seq<char>)>) -> Option<Seq<char>>
    decreases links.len(),
{
    if links.len() == 0 {
        None
    } else if is_alternate(links[0].0) {
        Some(links[0].1)
    } else {
        first_alternate(links.drop_first())
    }
}

/// The Atom entry link: the first alternate link, else the first link.
pub open spec fn atom_link_of(links: Seq<(Option<Seq<char>>, Seq<char>)>) -> Option<Seq<char>> {
    match first_alternate(links) {
        Some(h) => Some(h),
        None => if links.len() > 0 {
            Some(links[0].1)
        } else {
            None
        },
    }
}

pub open spec fn or_else(a: Option<Seq<char>>, b: Option<Seq<char>>) -> Option<Seq<char>> {
    if a is Some {
        a
    } else {
        b
    }
}

/// The identity of an item: RSS `guid` falling back to `link`; Atom `id`
/// with no fallback.
pub open spec fn identity_of(b: ItemBV, kind: FeedKind) -> Option<Seq<char>> {
    match kind {
        FeedKind::Rss => or_else(non_empty(b.guid), non_empty(b.link)),
        FeedKind::Atom => non_empty(b.id),
    }
}

/// The date text of an item: RSS `pubDate`; Atom `published`, else `updated`.
pub open spec fn date_text_of(b: ItemBV, kind: FeedKind) -> Option<Seq<char>> {
    match kind {
        FeedKind::Rss => b.pub_date,
        FeedKind::Atom => or_else(b.published, b.updated),
    }
}

/// The entry an item becomes, `None` when it has no identity.
pub open spec fn finish_of(b: ItemBV, kind: FeedKind) -> Option<ParsedEntryV> {
    match identity_of(b, kind) {
        None => None,
        Some(guid) => Some(
            ParsedEntryV {
                guid,
                title: match non_empty(b.title) {
                    Some(t) => t,
                    None => untitled_text(),
                },
                link: match kind {
                    FeedKind::Rss => non_empty(b.link),
                    FeedKind::Atom => non_empty(atom_link_of(b.links)),
                },
                summary: match kind {
                    FeedKind::Rss => non_empty(b.description),
                    FeedKind::Atom => or_else(non_empty(b.summary), non_empty(b.content)),
                },
                published_at: match date_text_of(b, kind) {
                    Some(d) => feed_date_of(d),
                    None => None,
                },
            },
        ),
    }
}

/// The field an element inside an `<item>`/`<entry>` fills.
pub open spec fn field_for_item_of(kind: FeedKind, name: Seq<char>) -> Option<Field> {
    match kind {
        FeedKind::Rss => if name == seq!['g', 'u', 'i', 'd'] {
            Some(Field::Guid)
        } else if name == w_title() {
            Some(Field::Title)
        } else if name == w_link() {
            Some(Field::Link)
        } else if name == seq!['d', 'e', 's', 'c', 'r', 'i', 'p', 't', 'i', 'o', 'n'] {
            Some(Field::Description)
        } else if name == seq!['p', 'u', 'b', 'D', 'a', 't', 'e'] {
            Some(Field::PubDate)
        } else {
            None
        },
        FeedKind::Atom => if name == seq!['i', 'd'] {
            Some(Field::Id)
        } else if name == w_title() {
            Some(Field::Title)
        } else if name == seq!['s', 'u', 'm', 'm', 'a', 'r', 'y'] {
            Some(Field::Summary)
        } else if name == seq!['c', 'o', 'n', 't', 'e', 'n', 't'] {
            Some(Field::Content)
        } else if name == seq!['p', 'u', 'b', 'l', 'i', 's', 'h', 'e', 'd'] {
            Some(Field::Published)
        } else if name == seq!['u', 'p', 'd', 'a', 't', 'e', 'd'] {
            Some(Field::Updated)
        } else {
            None
        },
    }
}

/// The feed-level `<title>`: directly inside `<rss><channel>` or `<feed>`.
pub open spec fn feed_title_field_of(kind: FeedKind, name: Seq<char>, stack: Seq<Seq<char>>) -> Option<Field> {
    if name == w_title() && ((kind == FeedKind::Rss && stack == seq![w_rss(), w_channel()]) || (kind
        == FeedKind::Atom && stack == seq![w_feed()])) {
        Some(Field::FeedTitle)
    } else {
        None
    }
}

/// The local part of a qualified name: what follows the first `:`.
pub open spec fn local_of(q: Seq<char>) -> Seq<char> {
    match find_char(q, ':') {
        Some(i) => q.skip(i + 1),
        None => q,
    }
}

/// The `rel` and `href` of an Atom `<link>`: of the well-formed attributes
/// whose value resolved, the last of each local key.
pub open spec fn link_attrs_of(a: Seq<AttrItemV>) -> (Option<Seq<char>>, Option<Seq<char>>)
    decreases a.len(),
{
    if a.len() == 0 {
        (None, None)
    } else {
        let (rel, href) = link_attrs_of(a.drop_last());
        match a.last() {
            Ok((k, Ok(v))) => if local_of(k) == w_rel() {
                (Some(v), href)
            } else if local_of(k) == w_href() {
                (rel, Some(v))
            } else {
                (rel, href)
            },
            _ => (rel, href),
        }
    }
}

// ---------------------------------------------------------------- state

/// An in-progress text capture: its field, the stack depth at which it
/// opened, and the text so far.
pub struct CaptureV {
    pub field: Field,
    pub depth: int,
    pub text: Seq<char>,
}

pub struct StateV {
    pub kind: Option<FeedKind>,
    /// Namespace of the root element; `None` when it has none.
    pub root_ns: Option<Seq<char>>,
    /// Local names of the open elements.
    pub stack: Seq<Seq<char>>,
    pub feed_title: Option<Seq<char>>,
    pub entries: Seq<ParsedEntryV>,
    pub item: Option<ItemBV>,
    /// Stack depth at which the current item opened.
    pub item_depth: Option<int>,
    pub capture: Option<CaptureV>,
    pub skipped: nat,
}

pub open spec fn initial_state() -> StateV {
    StateV {
        kind: None,
        root_ns: None,
        stack: Seq::empty(),
        feed_title: None,
        entries: Seq::empty(),
        item: None,
        item_depth: None,
        capture: None,
        skipped: 0,
    }
}

/// Whether an element is in the feed's own namespace.
pub open spec fn is_native_of(ns: NsV, root: Option<Seq<char>>) -> bool {
    match (ns, root) {
        (NsV::Unbound, None) => true,
        (NsV::Bound(found), Some(r)) => found == r,
        _ => false,
    }
}

pub open spec fn parent_of(stack: Seq<Seq<char>>) -> Seq<char> {
    if stack.len() > 0 {
        stack.last()
    } else {
        Seq::empty()
    }
}

/// An element opens (start tag or empty element).
pub open spec fn open_of(
    st: StateV,
    name: Seq<char>,
    attrs: Seq<AttrItemV>,
    ns: NsV,
) -> Result<StateV, ParseErrorV> {
    let pushed = st.stack.push(name);
    if st.stack.len() == 0 {
        if name == w_rss() || name == w_feed() {
            Ok(
                StateV {
                    kind: Some(
                        if name == w_rss() {
                            FeedKind::Rss
                        } else {
                            FeedKind::Atom
                        },
                    ),
                    root_ns: match ns {
                        NsV::Bound(f) => Some(f),
                        _ => None,
                    },
                    stack: pushed,
                    ..st
                },
            )
        } else {
            Err(ParseErrorV::UnknownFormat)
        }
    } else {
        match st.kind {
            None => Err(ParseErrorV::UnknownFormat),
            Some(kind) => {
                let parent = parent_of(st.stack);
                let native = is_native_of(ns, st.root_ns);
                let starts_item = native && match kind {
                    FeedKind::Rss => name == w_item() && parent == w_channel(),
                    FeedKind::Atom => name == w_entry() && parent == w_feed(),
                };
                if starts_item && st.item is None {
                    Ok(
                        StateV {
                            item: Some(empty_item()),
                            item_depth: Some(st.stack.len() as int),
                            stack: pushed,
                            ..st
                        },
                    )
                } else if kind == FeedKind::Atom && native && name == w_link() && parent == w_entry() {
                    let (rel, href) = link_attrs_of(attrs);
                    match (non_empty(href), st.item) {
                        (Some(h), Some(b)) => Ok(
                            StateV {
                                item: Some(ItemBV { links: b.links.push((rel, h)), ..b }),
                                stack: pushed,
                                ..st
                            },
                        ),
                        _ => Ok(StateV { stack: pushed, ..st }),
                    }
                } else if st.capture is None && native {
                    let field = if st.item is Some {
                        if parent == w_item() || parent == w_entry() {
                            field_for_item_of(kind, name)
                        } else {
                            None
                        }
                    } else {
                        feed_title_field_of(kind, name, st.stack)
                    };
                    match field {
                        Some(f) => Ok(
                            StateV {
                                capture: Some(CaptureV { field: f, depth: st.stack.len() as int, text: Seq::empty() }),
                                stack: pushed,
                                ..st
                            },
                        ),
                        None => Ok(StateV { stack: pushed, ..st }),
                    }
                } else {
                    Ok(StateV { stack: pushed, ..st })
                }
            },
        }
    }
}

/// The capture's text is complete: the feed title (the first non-blank one)
/// or a field of the current item.
pub open spec fn commit_capture(st: StateV, c: CaptureV) -> StateV {
    let text = trim(c.text);
    match c.field {
        Field::FeedTitle => if st.feed_title is None {
            StateV { feed_title: non_empty(Some(text)), capture: None, ..st }
        } else {
            StateV { capture: None, ..st }
        },
        other => match st.item {
            Some(b) => StateV { item: Some(set_of(b, other, text)), capture: None, ..st },
            None => StateV { capture: None, ..st },
        },
    }
}

/// An element closes: a capture opened by it is committed, the stack is
/// popped, and an item whose depth the stack returns to is finished.
pub open spec fn close_of(st: StateV) -> StateV {
    let st1 = match st.capture {
        Some(c) => if st.stack.len() == c.depth + 1 {
            commit_capture(st, c)
        } else {
            st
        },
        None => st,
    };
    if st1.stack.len() == 0 {
        st1
    } else {
        let st2 = StateV { stack: st1.stack.drop_last(), ..st1 };
        if st2.item_depth == Some(st2.stack.len() as int) {
            match (st2.item, st2.kind) {
                (Some(b), Some(kind)) => match finish_of(b, kind) {
                    Some(e) => StateV { item_depth: None, item: None, entries: st2.entries.push(e), ..st2 },
                    None => StateV { item_depth: None, item: None, skipped: st2.skipped + 1, ..st2 },
                },
                _ => StateV { item_depth: None, item: None, ..st2 },
            }
        } else {
            st2
        }
    }
}

pub open spec fn push_text_of(st: StateV, t: Seq<char>) -> StateV {
    match st.capture {
        Some(c) => StateV { capture: Some(CaptureV { text: c.text + t, ..c }), ..st },
        None => st,
    }
}

/// The text a general reference stands for: a character reference, else an
/// HTML5 named entity (the predefined XML entities among them).
pub open spec fn entity_text(name: Seq<char>) -> Option<Seq<char>> {
    if name.len() > 0 && name[0] == '#' {
        match char_ref(name) {
            Some(c) => Some(seq![c]),
            None => None,
        }
    } else {
        html5_entity(name)
    }
}

/// The message for a reference that resolves to nothing.
pub open spec fn unresolved_text(name: Seq<char>) -> Seq<char> {
    "unresolved reference &"@ + name + seq![';']
}

/// The attributes of a start tag with the given qualified name and content.
pub open spec fn attrs_of(q: Seq<char>, content: Seq<char>) -> Seq<AttrItemV> {
    tag_attribute_items(content, (vstd::utf8::encode_utf8(q).len() as usize) as int)
}

pub enum StepV {
    Next(StateV),
    Done,
    Fail(ParseErrorV),
}

/// One resolved event of the parse.
pub open spec fn step_of(st: StateV, ns: NsV, ev: XmlEv) -> StepV {
    match ev {
        XmlEv::Error(msg) => StepV::Fail(ParseErrorV::Xml(msg)),
        XmlEv::Eof => if st.stack.len() > 0 {
            StepV::Fail(ParseErrorV::Xml(crate::onepass::unclosed_text(st.stack.last())))
        } else {
            StepV::Done
        },
        XmlEv::Start(q, c) => match open_of(st, local_of(q), attrs_of(q, c), ns) {
            Ok(s) => StepV::Next(s),
            Err(e) => StepV::Fail(e),
        },
        XmlEv::Empty(q, c) => match open_of(st, local_of(q), attrs_of(q, c), ns) {
            Ok(s) => StepV::Next(close_of(s)),
            Err(e) => StepV::Fail(e),
        },
        XmlEv::End(_) => StepV::Next(close_of(st)),
        XmlEv::Text(t) => StepV::Next(push_text_of(st, t)),
        XmlEv::CData(t) => StepV::Next(push_text_of(st, t)),
        XmlEv::Ref(r) => if st.capture is Some {
            match entity_text(r) {
                Some(x) => StepV::Next(push_text_of(st, x)),
                None => StepV::Fail(ParseErrorV::Xml(unresolved_text(r))),
            }
        } else {
            StepV::Next(st)
        },
        XmlEv::Other => StepV::Next(st),
    }
}

pub enum RunV {
    Going(StateV),
    Done(StateV),
    Failed(ParseErrorV),
}

/// The parse after the first `n` events.
pub open spec fn run_of(evs: Seq<(NsV, XmlEv)>, n: int) -> RunV
    decreases n,
{
    if n <= 0 {
        RunV::Going(initial_state())
    } else {
        match run_of(evs, n - 1) {
            RunV::Going(st) => match step_of(st, evs[n - 1].0, evs[n - 1].1) {
                StepV::Next(s) => RunV::Going(s),
                StepV::Done => RunV::Done(st),
                StepV::Fail(e) => RunV::Failed(e),
            },
            other => other,
        }
    }
}

pub open spec fn finish_state(st: StateV) -> Result<OutcomeV, ParseErrorV> {
    match st.kind {
        Some(kind) => Ok(
            OutcomeV {
                feed: ParsedFeedV { kind, title: st.feed_title, entries: st.entries },
                skipped: st.skipped,
            },
        ),
        None => Err(ParseErrorV::UnknownFormat),
    }
}

/// What parsing a resolved event stream gives.
pub open spec fn outcome_of_events(evs: Seq<(NsV, XmlEv)>) -> Result<OutcomeV, ParseErrorV> {
    match run_of(evs, evs.len() as int) {
        RunV::Going(st) => finish_state(st),
        RunV::Done(st) => finish_state(st),
        RunV::Failed(e) => Err(e),
    }
}

/// A document with a leading UTF-8 byte-order mark removed.
pub open spec fn without_bom(b: Seq<u8>) -> Seq<u8> {
    if b.len() >= 3 && b[0] == 0xEF && b[1] == 0xBB && b[2] == 0xBF {
        b.skip(3)
    } else {
        b
    }
}

/// What [`parse_feed`] returns for a document.
pub open spec fn parse_outcome_of(doc: Seq<u8>) -> Result<OutcomeV, ParseErrorV> {
    let b = without_bom(doc);
    if valid_utf8(b) {
        outcome_of_events(ns_events(decode_utf8(b)))
    } else {
        Err(ParseErrorV::NotUtf8)
    }
}

} // verus!

verus! {

// ---------------------------------------------------------------- executable

pub open spec fn links_view(v: Seq<(Option<String>, String)>) -> Seq<(Option<Seq<char>>, Seq<char>)> {
    v.map_values(|p: (Option<String>, String)| (opt_view(p.0), p.1@))
}

/// The fields gathered for an item before it is finished.
pub struct ItemBuilder {
    guid: Option<String>,
    id: Option<String>,
    title: Option<String>,
    link: Option<String>,
    links: Vec<(Option<String>, String)>,
    description: Option<String>,
    summary: Option<String>,
    content: Option<String>,
    pub_date: Option<String>,
    published: Option<String>,
    updated: Option<String>,
}

impl View for ItemBuilder {
    type V = ItemBV;

    closed spec fn view(&self) -> ItemBV {
        ItemBV {
            guid: opt_view(self.guid),
            id: opt_view(self.id),
            title: opt_view(self.title),
            link: opt_view(self.link),
            links: links_view(self.links@),
            description: opt_view(self.description),
            summary: opt_view(self.summary),
            content: opt_view(self.content),
            pub_date: opt_view(self.pub_date),
            published: opt_view(self.published),
            updated: opt_view(self.updated),
        }
    }
}

fn new_item() -> (b: ItemBuilder)
    ensures
        b@ == empty_item(),
{
    let b = ItemBuilder {
        guid: None,
        id: None,
        title: None,
        link: None,
        links: Vec::new(),
        description: None,
        summary: None,
        content: None,
        pub_date: None,
        published: None,
        updated: None,
    };
    assert(links_view(b.links@) =~= Seq::<(Option<Seq<char>>, Seq<char>)>::empty());
    b
}

fn is_blank_str(s: &str) -> (r: bool)
    ensures
        r == is_blank(s@),
{
    let v = str_chars(s);
    is_blank_vec(v.as_slice())
}

fn non_empty_exec(s: Option<String>) -> (r: Option<String>)
    ensures
        opt_view(r) == non_empty(opt_view(s)),
{
    match s {
        Some(v) => if is_blank_str(v.as_str()) {
            None
        } else {
            Some(v)
        },
        None => None,
    }
}

fn fill_first(slot: &mut Option<String>, text: String)
    ensures
        opt_view(*final(slot)) == first_wins(opt_view(*old(slot)), text@),
{
    if slot.is_none() {
        *slot = Some(text);
    }
}

/// Store the text of a field in an item.
fn set_field(b: &mut ItemBuilder, field: Field, text: String)
    ensures
        final(b)@ == set_of(old(b)@, field, text@),
{
    if is_blank_str(text.as_str()) {
        return;
    }
    match field {
        Field::Guid => fill_first(&mut b.guid, text),
        Field::Id => fill_first(&mut b.id, text),
        Field::Title => fill_first(&mut b.title, text),
        Field::Link => fill_first(&mut b.link, text),
        Field::Description => fill_first(&mut b.description, text),
        Field::Summary => fill_first(&mut b.summary, text),
        Field::Content => fill_first(&mut b.content, text),
        Field::PubDate => fill_first(&mut b.pub_date, text),
        Field::Published => fill_first(&mut b.published, text),
        Field::Updated => fill_first(&mut b.updated, text),
        Field::FeedTitle => {},
    }
}

fn is_alternate_exec(rel: &Option<String>) -> (r: bool)
    ensures
        r == is_alternate(opt_view(*rel)),
{
    match rel {
        None => true,
        Some(r) => {
            let v = str_chars(r.as_str());
            eq_chars(v.as_slice(), &['a', 'l', 't', 'e', 'r', 'n', 'a', 't', 'e'])
        },
    }
}

/// The Atom entry link: `rel="alternate"` (or no `rel`) first, else the
/// first link.
fn atom_link(links: &Vec<(Option<String>, String)>) -> (r: Option<String>)
    ensures
        opt_view(r) == atom_link_of(links_view(links@)),
{
    let ghost lv = links_view(links@);
    let mut i: usize = 0;
    assert(lv.skip(0) =~= lv);
    while i < links.len()
        invariant
            i <= links@.len(),
            lv == links_view(links@),
            lv.len() == links@.len(),
            first_alternate(lv) == first_alternate(lv.skip(i as int)),
        decreases links@.len() - i,
    {
        assert(lv.skip(i as int)[0] == lv[i as int]);
        if is_alternate_exec(&links[i].0) {
            return Some(links[i].1.clone());
        }
        assert(lv.skip(i as int).drop_first() =~= lv.skip(i + 1));
        i = i + 1;
    }
    assert(lv.skip(i as int).len() == 0);
    if links.len() > 0 {
        assert(lv[0].1 == links@[0].1@);
        Some(links[0].1.clone())
    } else {
        None
    }
}

/// Finish an item: `None` when it has no identity.
fn finish(b: ItemBuilder, kind: FeedKind) -> (r: Option<ParsedEntry>)
    ensures
        r matches Some(e) ==> finish_of(b@, kind) == Some(e@),
        r is None ==> finish_of(b@, kind) is None,
        r matches Some(e) ==> (e.published_at matches Some(i) ==> i.valid()),
{
    let ghost bv = b@;
    let (guid, link, summary, date) = match kind {
        FeedKind::Rss => {
            let link = non_empty_exec(b.link);
            let guid = match non_empty_exec(b.guid) {
                Some(g) => g,
                None => match link.clone() {
                    Some(l) => l,
                    None => return None,
                },
            };
            (guid, link, non_empty_exec(b.description), b.pub_date)
        },
        FeedKind::Atom => {
            let link = non_empty_exec(atom_link(&b.links));
            let guid = match non_empty_exec(b.id) {
                Some(g) => g,
                None => return None,
            };
            let summary = match non_empty_exec(b.summary) {
                Some(s) => Some(s),
                None => non_empty_exec(b.content),
            };
            let date = match b.published {
                Some(p) => Some(p),
                None => b.updated,
            };
            (guid, link, summary, date)
        },
    };
    let title = match non_empty_exec(b.title) {
        Some(t) => t,
        None => untitled(),
    };
    let published_at = match date {
        Some(d) => parse_feed_date(d.as_str()),
        None => None,
    };
    Some(ParsedEntry { guid, title, link, summary, published_at })
}

} // verus!

verus! {

fn field_for_item(kind: FeedKind, name: &[char]) -> (r: Option<Field>)
    ensures
        r == field_for_item_of(kind, name@),
{
    match kind {
        FeedKind::Rss => if eq_chars(name, &['g', 'u', 'i', 'd']) {
            Some(Field::Guid)
        } else if eq_chars(name, &['t', 'i', 't', 'l', 'e']) {
            Some(Field::Title)
        } else if eq_chars(name, &['l', 'i', 'n', 'k']) {
            Some(Field::Link)
        } else if eq_chars(name, &['d', 'e', 's', 'c', 'r', 'i', 'p', 't', 'i', 'o', 'n']) {
            Some(Field::Description)
        } else if eq_chars(name, &['p', 'u', 'b', 'D', 'a', 't', 'e']) {
            Some(Field::PubDate)
        } else {
            None
        },
        FeedKind::Atom => if eq_chars(name, &['i', 'd']) {
            Some(Field::Id)
        } else if eq_chars(name, &['t', 'i', 't', 'l', 'e']) {
            Some(Field::Title)
        } else if eq_chars(name, &['s', 'u', 'm', 'm', 'a', 'r', 'y']) {
            Some(Field::Summary)
        } else if eq_chars(name, &['c', 'o', 'n', 't', 'e', 'n', 't']) {
            Some(Field::Content)
        } else if eq_chars(name, &['p', 'u', 'b', 'l', 'i', 's', 'h', 'e', 'd']) {
            Some(Field::Published)
        } else if eq_chars(name, &['u', 'p', 'd', 'a', 't', 'e', 'd']) {
            Some(Field::Updated)
        } else {
            None
        },
    }
}

pub open spec fn stack_view(v: Seq<Vec<char>>) -> Seq<Seq<char>> {
    v.map_values(|w: Vec<char>| w@)
}

fn feed_title_field(kind: FeedKind, name: &[char], stack: &Vec<Vec<char>>) -> (r: Option<Field>)
    ensures
        r == feed_title_field_of(kind, name@, stack_view(stack@)),
{
    let ghost sv = stack_view(stack@);
    assert(sv.len() == stack@.len());
    let title: &[char] = &['t', 'i', 't', 'l', 'e'];
    let rss: &[char] = &['r', 's', 's'];
    let channel: &[char] = &['c', 'h', 'a', 'n', 'n', 'e', 'l'];
    let feed: &[char] = &['f', 'e', 'e', 'd'];
    assert(title@ == w_title());
    assert(rss@ == w_rss());
    assert(channel@ == w_channel());
    assert(feed@ == w_feed());
    if !eq_chars(name, title) {
        return None;
    }
    let at_root = match kind {
        FeedKind::Rss => stack.len() == 2 && eq_chars(stack[0].as_slice(), rss) && eq_chars(
            stack[1].as_slice(),
            channel,
        ),
        FeedKind::Atom => stack.len() == 1 && eq_chars(stack[0].as_slice(), feed),
    };
    proof {
        if stack@.len() == 2 {
            assert(sv[0] == stack@[0]@);
            assert(sv[1] == stack@[1]@);
            if sv == seq![w_rss(), w_channel()] {
                assert(sv[0] == w_rss());
                assert(sv[1] == w_channel());
            }
            if stack@[0]@ == w_rss() && stack@[1]@ == w_channel() {
                assert(sv =~= seq![w_rss(), w_channel()]);
            }
        }
        if stack@.len() == 1 {
            assert(sv[0] == stack@[0]@);
            if sv == seq![w_feed()] {
                assert(sv[0] == w_feed());
            }
            if stack@[0]@ == w_feed() {
                assert(sv =~= seq![w_feed()]);
            }
        }
    }
    if at_root {
        Some(Field::FeedTitle)
    } else {
        None
    }
}

/// The local part of a qualified name.
pub(crate) fn local_name(q: &str) -> (r: Vec<char>)
    ensures
        r@ == local_of(q@),
{
    let v = str_chars(q);
    match find_char_exec(v.as_slice(), ':') {
        Some(i) => {
            let n = v.len();
            assert(i < n);
            subvec(v.as_slice(), i + 1, n)
        },
        None => v,
    }
}

/// Read the `rel` and `href` of an Atom `<link>` element.
fn read_link_attrs(attrs: &Vec<AttrItem>) -> (r: (Option<String>, Option<String>))
    ensures
        (opt_view(r.0), opt_view(r.1)) == link_attrs_of(crate::xml::attr_items_view(attrs@)),
{
    let ghost av = crate::xml::attr_items_view(attrs@);
    let mut rel: Option<String> = None;
    let mut href: Option<String> = None;
    let mut i: usize = 0;
    assert(av.take(0) =~= Seq::<AttrItemV>::empty());
    while i < attrs.len()
        invariant
            i <= attrs@.len(),
            av == crate::xml::attr_items_view(attrs@),
            av.len() == attrs@.len(),
            (opt_view(rel), opt_view(href)) == link_attrs_of(av.take(i as int)),
        decreases attrs@.len() - i,
    {
        assert(av.take(i + 1).drop_last() =~= av.take(i as int));
        assert(av.take(i + 1).last() == av[i as int]);
        match &attrs[i] {
            Ok((k, Ok(v))) => {
                let kc = local_name(k.as_str());
                if eq_chars(kc.as_slice(), &['r', 'e', 'l']) {
                    rel = Some(v.clone());
                } else if eq_chars(kc.as_slice(), &['h', 'r', 'e', 'f']) {
                    href = Some(v.clone());
                }
            },
            _ => {},
        }
        i = i + 1;
    }
    assert(av.take(i as int) =~= av);
    (rel, href)
}

fn is_native(ns: &Ns, root: &Option<String>) -> (r: bool)
    ensures
        r == is_native_of(ns@, opt_view(*root)),
{
    match (ns, root) {
        (Ns::Unbound, None) => true,
        (Ns::Bound(found), Some(r)) => {
            let a = str_chars(found.as_str());
            let b = str_chars(r.as_str());
            eq_chars(a.as_slice(), b.as_slice())
        },
        _ => false,
    }
}

} // verus!

verus! {

/// An in-progress text capture.
struct Capture {
    field: Field,
    depth: usize,
    text: Vec<char>,
}

/// The parse state.
pub struct ParserState {
    kind: Option<FeedKind>,
    root_ns: Option<String>,
    stack: Vec<Vec<char>>,
    feed_title: Option<String>,
    entries: Vec<ParsedEntry>,
    item: Option<ItemBuilder>,
    item_depth: Option<usize>,
    capture: Option<Capture>,
    skipped: usize,
}

impl View for ParserState {
    type V = StateV;

    closed spec fn view(&self) -> StateV {
        StateV {
            kind: self.kind,
            root_ns: opt_view(self.root_ns),
            stack: stack_view(self.stack@),
            feed_title: opt_view(self.feed_title),
            entries: parsed_entries_view(self.entries@),
            item: match self.item {
                Some(b) => Some(b@),
                None => None,
            },
            item_depth: match self.item_depth {
                Some(d) => Some(d as int),
                None => None,
            },
            capture: match self.capture {
                Some(c) => Some(CaptureV { field: c.field, depth: c.depth as int, text: c.text@ }),
                None => None,
            },
            skipped: self.skipped as nat,
        }
    }
}

/// Every finished entry's date is an instant `chrono` can represent.
pub open spec fn dates_valid(entries: Seq<ParsedEntryV>) -> bool {
    forall|k: int| 0 <= k < entries.len() ==> ((#[trigger] entries[k]).published_at matches Some(i) ==> i.valid())
}

fn push_name(stack: &mut Vec<Vec<char>>, name: Vec<char>)
    ensures
        stack_view(final(stack)@) == stack_view(old(stack)@).push(name@),
{
    let ghost before = stack_view(stack@);
    stack.push(name);
    assert(stack_view(stack@) =~= before.push(name@));
}

fn is_word(name: &[char], w: &[char]) -> (r: bool)
    ensures
        r == (name@ == w@),
{
    eq_chars(name, w)
}

/// An element opens.
fn open(st: &mut ParserState, q: &str, content: &str, ns: &Ns) -> (r: Result<(), ParseError>)
    requires
        q@.is_prefix_of(content@),
    ensures
        r matches Ok(_) ==> open_of(old(st)@, local_of(q@), attrs_of(q@, content@), ns@) == Ok::<StateV, ParseErrorV>(final(st)@),
        r matches Err(e) ==> open_of(old(st)@, local_of(q@), attrs_of(q@, content@), ns@) == Err::<StateV, ParseErrorV>(e@),
        final(st)@.stack.len() <= old(st)@.stack.len() + 1,
        final(st)@.skipped == old(st)@.skipped,
        final(st)@.entries == old(st)@.entries,
{
    let name = local_name(q);
    let ghost nm = name@;
    let w_rss_s: &[char] = &['r', 's', 's'];
    let w_feed_s: &[char] = &['f', 'e', 'e', 'd'];
    let w_channel_s: &[char] = &['c', 'h', 'a', 'n', 'n', 'e', 'l'];
    let w_item_s: &[char] = &['i', 't', 'e', 'm'];
    let w_entry_s: &[char] = &['e', 'n', 't', 'r', 'y'];
    let w_link_s: &[char] = &['l', 'i', 'n', 'k'];
    assert(w_rss_s@ == w_rss());
    assert(w_feed_s@ == w_feed());
    assert(w_channel_s@ == w_channel());
    assert(w_item_s@ == w_item());
    assert(w_entry_s@ == w_entry());
    assert(w_link_s@ == w_link());
    let n = st.stack.len();
    if n == 0 {
        let kind = if is_word(name.as_slice(), w_rss_s) {
            FeedKind::Rss
        } else if is_word(name.as_slice(), w_feed_s) {
            FeedKind::Atom
        } else {
            return Err(ParseError::UnknownFormat);
        };
        st.kind = Some(kind);
        st.root_ns = match ns {
            Ns::Bound(f) => Some(f.clone()),
            _ => None,
        };
        push_name(&mut st.stack, name);
        return Ok(());
    }
    let kind = match st.kind {
        Some(k) => k,
        None => return Err(ParseError::UnknownFormat),
    };
    assert(stack_view(st.stack@)[n - 1] == st.stack@[n - 1]@);
    let p_channel = is_word(st.stack[n - 1].as_slice(), w_channel_s);
    let p_feed = is_word(st.stack[n - 1].as_slice(), w_feed_s);
    let p_item = is_word(st.stack[n - 1].as_slice(), w_item_s);
    let p_entry = is_word(st.stack[n - 1].as_slice(), w_entry_s);
    let native = is_native(ns, &st.root_ns);
    let starts_item = native && match kind {
        FeedKind::Rss => is_word(name.as_slice(), w_item_s) && p_channel,
        FeedKind::Atom => is_word(name.as_slice(), w_entry_s) && p_feed,
    };
    if starts_item && st.item.is_none() {
        st.item = Some(new_item());
        st.item_depth = Some(n);
        push_name(&mut st.stack, name);
        return Ok(());
    }
    if kind == FeedKind::Atom && native && is_word(name.as_slice(), w_link_s) && p_entry {
        proof {
            lemma_name_boundary(q@, content@);
        }
        let attrs = tag_attributes_unescaped(content, utf8_len(q));
        let (rel, href) = read_link_attrs(&attrs);
        match non_empty_exec(href) {
            Some(h) => match st.item.take() {
                Some(mut b) => {
                    let ghost before = links_view(b.links@);
                    let ghost entry = (opt_view(rel), h@);
                    b.links.push((rel, h));
                    assert(links_view(b.links@) =~= before.push(entry));
                    st.item = Some(b);
                },
                None => {},
            },
            None => {},
        }
        push_name(&mut st.stack, name);
        return Ok(());
    }
    if st.capture.is_none() && native {
        let field = if st.item.is_some() {
            if p_item || p_entry {
                field_for_item(kind, name.as_slice())
            } else {
                None
            }
        } else {
            feed_title_field(kind, name.as_slice(), &st.stack)
        };
        match field {
            Some(f) => {
                st.capture = Some(Capture { field: f, depth: n, text: Vec::new() });
                assert(st.capture->0.text@ =~= Seq::<char>::empty());
            },
            None => {},
        }
    }
    push_name(&mut st.stack, name);
    Ok(())
}

/// An element closes.
fn close(st: &mut ParserState)
    requires
        old(st)@.skipped < usize::MAX,
    ensures
        final(st)@ == close_of(old(st)@),
        final(st)@.stack.len() <= old(st)@.stack.len(),
        final(st)@.skipped <= old(st)@.skipped + 1,
        dates_valid(old(st)@.entries) ==> dates_valid(final(st)@.entries),
{
    let commit = match &st.capture {
        Some(c) => st.stack.len() > 0 && st.stack.len() - 1 == c.depth,
        None => false,
    };
    if commit {
        match st.capture.take() {
            Some(c) => {
                let tv = trim_vec(c.text.as_slice());
                let text = string_of(tv.as_slice());
                match c.field {
                    Field::FeedTitle => {
                        if st.feed_title.is_none() {
                            st.feed_title = non_empty_exec(Some(text));
                        }
                    },
                    other => {
                        match st.item.take() {
                            Some(mut b) => {
                                set_field(&mut b, other, text);
                                st.item = Some(b);
                            },
                            None => {},
                        }
                    },
                }
            },
            None => {},
        }
    }
    let n = st.stack.len();
    if n == 0 {
        return;
    }
    let ghost before = stack_view(st.stack@);
    st.stack.pop();
    assert(stack_view(st.stack@) =~= before.drop_last());
    let at_item = match st.item_depth {
        Some(d) => d == n - 1,
        None => false,
    };
    if at_item {
        st.item_depth = None;
        let it = st.item.take();
        match (it, st.kind) {
            (Some(b), Some(kind)) => match finish(b, kind) {
                Some(e) => {
                    let ghost ev = parsed_entries_view(st.entries@);
                    st.entries.push(e);
                    assert(parsed_entries_view(st.entries@) =~= ev.push(e@));
                },
                None => {
                    st.skipped = st.skipped + 1;
                },
            },
            _ => {},
        }
    }
}

fn push_text(st: &mut ParserState, t: &str)
    ensures
        final(st)@ == push_text_of(old(st)@, t@),
{
    match st.capture.take() {
        Some(mut c) => {
            push_str(&mut c.text, t);
            st.capture = Some(c);
        },
        None => {},
    }
}

} // verus!

verus! {

pub(crate) fn entity(name: &str) -> (r: Option<String>)
    ensures
        opt_view(r) == entity_text(name@),
{
    let v = str_chars(name);
    if v.len() > 0 && v[0] == '#' {
        resolve_reference(name)
    } else {
        resolve_html5(name)
    }
}

fn unresolved(name: &str) -> (r: String)
    ensures
        r@ == unresolved_text(name@),
{
    let mut v = str_chars("unresolved reference &");
    push_str(&mut v, name);
    v.push(';');
    string_of(v.as_slice())
}

enum Step {
    Next,
    Done,
    Fail(ParseError),
}

/// Apply one resolved event.
fn step(st: &mut ParserState, ns: &Ns, ev: &XmlEvent) -> (r: Step)
    requires
        old(st)@.skipped < usize::MAX,
        name_leads(ev@),
    ensures
        r is Next ==> step_of(old(st)@, ns@, ev@) == StepV::Next(final(st)@),
        r is Done ==> step_of(old(st)@, ns@, ev@) is Done && final(st)@ == old(st)@,
        r matches Step::Fail(e) ==> step_of(old(st)@, ns@, ev@) == StepV::Fail(e@),
        final(st)@.skipped <= old(st)@.skipped + 1,
        dates_valid(old(st)@.entries) ==> dates_valid(final(st)@.entries),
{
    match ev {
        XmlEvent::Error(msg) => Step::Fail(ParseError::Xml(msg.clone())),
        XmlEvent::Eof => {
            let n = st.stack.len();
            if n > 0 {
                assert(stack_view(st.stack@).last() == st.stack@[n - 1]@);
                Step::Fail(ParseError::Xml(crate::onepass::unclosed(st.stack[n - 1].as_slice())))
            } else {
                Step::Done
            }
        },
        XmlEvent::Start(q, c) => match open(st, q.as_str(), c.as_str(), ns) {
            Ok(()) => Step::Next,
            Err(e) => Step::Fail(e),
        },
        XmlEvent::Empty(q, c) => match open(st, q.as_str(), c.as_str(), ns) {
            Ok(()) => {
                close(st);
                Step::Next
            },
            Err(e) => Step::Fail(e),
        },
        XmlEvent::End(_) => {
            close(st);
            Step::Next
        },
        XmlEvent::Text(t) => {
            push_text(st, t.as_str());
            Step::Next
        },
        XmlEvent::CData(t) => {
            push_text(st, t.as_str());
            Step::Next
        },
        XmlEvent::Ref(r) => {
            if st.capture.is_some() {
                match entity(r.as_str()) {
                    Some(x) => {
                        push_text(st, x.as_str());
                        Step::Next
                    },
                    None => Step::Fail(ParseError::Xml(unresolved(r.as_str()))),
                }
            } else {
                Step::Next
            }
        },
        XmlEvent::Other => Step::Next,
    }
}

/// Once the parse has stopped, later events change nothing.
proof fn lemma_run_stopped(evs: Seq<(NsV, XmlEv)>, i: int, n: int)
    requires
        0 <= i <= n,
        !(run_of(evs, i) is Going),
    ensures
        run_of(evs, n) == run_of(evs, i),
    decreases n - i,
{
    if n > i {
        lemma_run_stopped(evs, i, n - 1);
    }
}

/// Parse a namespace-resolved event stream.
pub fn parse_events(evs: &Vec<(Ns, XmlEvent)>) -> (r: Result<ParseOutcome, ParseError>)
    requires
        ns_names_lead(ns_events_view(evs@)),
    ensures
        outcome_view(r) == outcome_of_events(ns_events_view(evs@)),
        r matches Ok(o) ==> dates_valid(o.feed@.entries),
{
    let ghost e = ns_events_view(evs@);
    let mut st = ParserState {
        kind: None,
        root_ns: None,
        stack: Vec::new(),
        feed_title: None,
        entries: Vec::new(),
        item: None,
        item_depth: None,
        capture: None,
        skipped: 0,
    };
    assert(stack_view(st.stack@) =~= Seq::<Seq<char>>::empty());
    assert(parsed_entries_view(st.entries@) =~= Seq::<ParsedEntryV>::empty());
    assert(st@ == initial_state());
    let mut i: usize = 0;
    let mut done = false;
    while i < evs.len()
        invariant_except_break
            run_of(e, i as int) == RunV::Going(st@),
        invariant
            i <= evs@.len(),
            e == ns_events_view(evs@),
            e.len() == evs@.len(),
            ns_names_lead(e),
            st@.skipped <= i,
            dates_valid(st@.entries),
        ensures
            i < evs@.len() ==> run_of(e, i + 1) == RunV::Done(st@),
            i == evs@.len() ==> run_of(e, i as int) == RunV::Going(st@),
        decreases evs@.len() - i,
    {
        assert(e[i as int] == (evs@[i as int].0@, evs@[i as int].1@));
        assert(name_leads(e[i as int].1));
        match step(&mut st, &evs[i].0, &evs[i].1) {
            Step::Next => {},
            Step::Done => {
                break;
            },
            Step::Fail(err) => {
                proof {
                    assert(run_of(e, i + 1) == RunV::Failed(err@));
                    lemma_run_stopped(e, i + 1, e.len() as int);
                }
                return Err(err);
            },
        }
        i = i + 1;
    }
    proof {
        if i < evs@.len() {
            lemma_run_stopped(e, i + 1, e.len() as int);
        }
    }
    match st.kind {
        Some(kind) => Ok(
            ParseOutcome {
                feed: ParsedFeed { kind, title: st.feed_title, entries: st.entries },
                skipped_without_identity: st.skipped,
            },
        ),
        None => Err(ParseError::UnknownFormat),
    }
}

/// `std::str::from_utf8`: the text of a byte slice when it is valid UTF-8.
#[verifier::external_body]
pub(crate) fn utf8_text(b: &[u8]) -> (r: Option<&str>)
    ensures
        r is Some <==> valid_utf8(b@),
        r matches Some(s) ==> s@ == decode_utf8(b@),
{
    std::str::from_utf8(b).ok()
}

fn strip_bom(bytes: &[u8]) -> (r: &[u8])
    ensures
        r@ == without_bom(bytes@),
{
    if bytes.len() >= 3 && bytes[0] == 0xEF && bytes[1] == 0xBB && bytes[2] == 0xBF {
        let (_, rest) = bytes.split_at(3);
        rest
    } else {
        bytes
    }
}

/// Parse an RSS 2.0 or Atom document.
///
/// Tolerates a leading UTF-8 BOM. Returns [`ParseError`] for non-UTF-8
/// input, malformed XML, or a root element that is neither `<rss>` nor
/// `<feed>`.
pub fn parse_feed(bytes: &[u8]) -> (r: Result<ParseOutcome, ParseError>)
    ensures
        outcome_view(r) == parse_outcome_of(bytes@),
        r matches Ok(o) ==> dates_valid(o.feed@.entries),
{
    let body = strip_bom(bytes);
    let text = match utf8_text(body) {
        Some(t) => t,
        None => return Err(ParseError::NotUtf8),
    };
    let evs = read_ns_events(text);
    parse_events(&evs)
}

/// The message of a parse error.
pub open spec fn parse_error_text(e: ParseErrorV) -> Seq<char> {
    match e {
        ParseErrorV::NotUtf8 => "feed is not valid UTF-8"@,
        ParseErrorV::Xml(m) => "malformed XML: "@ + m,
        ParseErrorV::UnknownFormat => "unrecognized feed format: expected an RSS <rss> or an Atom <feed> root element"@,
    }
}

impl ParseError {
    /// The error's message.
    pub fn message(&self) -> (r: String)
        ensures
            r@ == parse_error_text(self@),
    {
        match self {
            ParseError::NotUtf8 => "feed is not valid UTF-8".to_owned(),
            ParseError::Xml(m) => {
                let mut v = str_chars("malformed XML: ");
                push_str(&mut v, m.as_str());
                string_of(v.as_slice())
            },
            ParseError::UnknownFormat => "unrecognized feed format: expected an RSS <rss> or an Atom <feed> root element".to_owned(),
        }
    }
}

} // verus!

verus! {

/// A leading UTF-8 byte-order mark does not change what a document parses
/// to.
pub proof fn law_bom_tolerated(doc: Seq<u8>)
    requires
        !(doc.len() >= 3 && doc[0] == 0xEF && doc[1] == 0xBB && doc[2] == 0xBF),
    ensures
        parse_outcome_of(seq![0xEFu8, 0xBBu8, 0xBFu8] + doc) == parse_outcome_of(doc),
{
    let b = seq![0xEFu8, 0xBBu8, 0xBFu8] + doc;
    assert(b.skip(3) =~= doc);
}

/// An RSS item's identity is its `guid`, else its `link`; an Atom entry's is
/// its `id`, with no fallback; an item without one is dropped. A missing
/// title becomes `(untitled)`, and a missing date is stored as no date.
pub proof fn law_entry_identity_and_defaults(b: ItemBV, kind: FeedKind)
    ensures
        kind == FeedKind::Rss && non_empty(b.guid) is Some ==> finish_of(b, kind)->0.guid == non_empty(b.guid)->0,
        kind == FeedKind::Rss && non_empty(b.guid) is None && non_empty(b.link) is Some ==> finish_of(b, kind)->0.guid
            == non_empty(b.link)->0,
        kind == FeedKind::Atom && non_empty(b.id) is Some ==> finish_of(b, kind)->0.guid == non_empty(b.id)->0,
        identity_of(b, kind) is None <==> finish_of(b, kind) is None,
        identity_of(b, kind) is Some && non_empty(b.title) is None ==> finish_of(b, kind)->0.title == untitled_text(),
        identity_of(b, kind) is Some && date_text_of(b, kind) is None ==> finish_of(b, kind)->0.published_at is None,
{
}

/// Blank text never claims a field, and the first non-blank occurrence of a
/// field wins.
pub proof fn law_first_non_blank_wins(b: ItemBV, field: Field, text: Seq<char>)
    ensures
        is_blank(text) ==> set_of(b, field, text) == b,
        field == Field::Title && b.title is Some ==> set_of(b, field, text).title == b.title,
        field == Field::Title && b.title is None && !is_blank(text) ==> set_of(b, field, text).title == Some(text),
        field == Field::Link && b.link is Some ==> set_of(b, field, text).link == b.link,
        field == Field::Guid && b.guid is Some ==> set_of(b, field, text).guid == b.guid,
{
}

/// An element outside the feed's namespace supplies nothing: it only
/// deepens the element stack.
pub proof fn law_foreign_element_only_nests(
    st: StateV,
    name: Seq<char>,
    attrs: Seq<AttrItemV>,
    ns: NsV,
)
    requires
        st.stack.len() > 0,
        st.kind is Some,
        !is_native_of(ns, st.root_ns),
    ensures
        open_of(st, name, attrs, ns) == Ok::<StateV, ParseErrorV>(StateV { stack: st.stack.push(name), ..st }),
{
}

/// The feed title is captured only from a `<title>` directly inside
/// `<rss><channel>` or `<feed>`, outside any item.
pub proof fn law_feed_title_only_at_top(
    st: StateV,
    name: Seq<char>,
    attrs: Seq<AttrItemV>,
    ns: NsV,
)
    requires
        st.capture is None,
        open_of(st, name, attrs, ns) matches Ok(s) && s.capture matches Some(c) && c.field == Field::FeedTitle,
    ensures
        name == w_title(),
        st.item is None,
        st.stack == seq![w_rss(), w_channel()] || st.stack == seq![w_feed()],
{
}

/// A document that ends inside an element is malformed: it is refused, not
/// reported as a feed of what was read so far.
pub proof fn law_unclosed_document_fails(st: StateV, ns: NsV)
    requires
        st.stack.len() > 0,
    ensures
        step_of(st, ns, XmlEv::Eof) == StepV::Fail(ParseErrorV::Xml(crate::onepass::unclosed_text(st.stack.last()))),
{
}

/// An item ends only when the element stack returns to the depth it opened
/// at (a nested element of the same name does not end it), and an ended
/// item is either kept as an entry or counted as skipped.
pub proof fn law_item_ends_at_its_depth(st: StateV)
    requires
        st.stack.len() > 0,
        st.item is Some,
        st.kind is Some,
        st.item_depth is Some,
    ensures
        st.item_depth != Some(st.stack.len() - 1) ==> close_of(st).item_depth == st.item_depth && close_of(
            st,
        ).item is Some,
        st.item_depth == Some(st.stack.len() - 1) ==> close_of(st).item is None && close_of(st).entries.len()
            + close_of(st).skipped == st.entries.len() + st.skipped + 1,
{
}

/// Whether closing the innermost element ends the item being read: that
/// element is the item's own.
pub open spec fn closes_item(st: StateV) -> bool {
    &&& st.stack.len() > 0
    &&& st.item_depth == Some(st.stack.len() - 1)
    &&& st.item is Some
    &&& st.kind is Some
}

/// Whether an event ends the item being read.
pub open spec fn ends_item(st: StateV, ns: NsV, ev: XmlEv) -> bool {
    match ev {
        XmlEv::End(_) => closes_item(st),
        XmlEv::Empty(q, c) => match open_of(st, local_of(q), attrs_of(q, c), ns) {
            Ok(s) => closes_item(s),
            Err(_) => false,
        },
        _ => false,
    }
}

/// How many items the first `n` events of a stream end.
pub open spec fn items_ended(evs: Seq<(NsV, XmlEv)>, n: int) -> nat
    decreases n,
{
    if n <= 0 {
        0
    } else {
        let before = items_ended(evs, n - 1);
        match run_of(evs, n - 1) {
            RunV::Going(st) => if ends_item(st, evs[n - 1].0, evs[n - 1].1) {
                before + 1
            } else {
                before
            },
            _ => before,
        }
    }
}

/// The number of entries kept plus the number of items skipped.
pub open spec fn accounted(st: StateV) -> nat {
    st.entries.len() + st.skipped
}

proof fn lemma_open_keeps_account(st: StateV, name: Seq<char>, attrs: Seq<AttrItemV>, ns: NsV)
    ensures
        open_of(st, name, attrs, ns) matches Ok(s) ==> s.entries == st.entries && s.skipped == st.skipped,
{
}

proof fn lemma_close_account(st: StateV)
    ensures
        accounted(close_of(st)) == accounted(st) + if closes_item(st) {
            1nat
        } else {
            0nat
        },
{
}

/// One step of the parse adds one to the account exactly when it ends an
/// item, and leaves it as it was otherwise.
proof fn lemma_step_account(st: StateV, ns: NsV, ev: XmlEv)
    ensures
        step_of(st, ns, ev) matches StepV::Next(s) ==> accounted(s) == accounted(st) + if ends_item(st, ns, ev) {
            1nat
        } else {
            0nat
        },
{
    lemma_close_account(st);
    match ev {
        XmlEv::Start(q, c) => {
            lemma_open_keeps_account(st, local_of(q), attrs_of(q, c), ns);
        },
        XmlEv::Empty(q, c) => {
            lemma_open_keeps_account(st, local_of(q), attrs_of(q, c), ns);
            if let Ok(s) = open_of(st, local_of(q), attrs_of(q, c), ns) {
                lemma_close_account(s);
            }
        },
        _ => {},
    }
}

proof fn lemma_run_account(evs: Seq<(NsV, XmlEv)>, n: int)
    requires
        0 <= n <= evs.len(),
    ensures
        run_of(evs, n) matches RunV::Going(s) ==> accounted(s) == items_ended(evs, n),
        run_of(evs, n) matches RunV::Done(s) ==> accounted(s) == items_ended(evs, n),
    decreases n,
{
    if n > 0 {
        lemma_run_account(evs, n - 1);
        if let RunV::Going(st) = run_of(evs, n - 1) {
            lemma_step_account(st, evs[n - 1].0, evs[n - 1].1);
        }
    }
}

/// Every item that the document ends is either kept as an entry or counted
/// as skipped: a parse that succeeds holds exactly as many entries plus
/// skipped items as the events ended items.
pub proof fn law_every_item_kept_or_skipped(evs: Seq<(NsV, XmlEv)>)
    ensures
        outcome_of_events(evs) matches Ok(o) ==> o.feed.entries.len() + o.skipped == items_ended(evs, evs.len() as int),
{
    lemma_run_account(evs, evs.len() as int);
}

} // verus!
