//! RSS 2.0 and Atom read from a document tree.
//!
//! `roxmltree` parses the document (resolving the predefined entities and
//! keeping CDATA verbatim); this module reads the tree it builds, handed
//! over as the list of its nodes in document order, each with its id, its
//! parent's id, its kind, an element's local name and attributes, and a
//! text node's text.
//!
//! An element's text is the text of all text nodes below it, concatenated
//! and trimmed (`None` when empty). Items are the `item` children of the
//! RSS `channel` or the `entry` children of the Atom `feed`; the identity of
//! an entry is its `guid` / `id`, else its link, else `synth:TITLE|LINK`.
use vstd::prelude::*;
use roxmltree::NodeType::{Comment, Element, Root, Text, PI};
use crate::feed::{strip_bom, without_bom};
use crate::feeddate::{month_slice_panics, month_slice_would_panic, parse_rfc3339, parse_rfc822, pub_date_of};
use crate::instant::Instant;
use crate::model::{ParsedEntry, ParsedEntryV};
use crate::params::{from_utf8_lossy, utf8_lossy};
use crate::storedate::plain_rfc3339_of;
use crate::strs::{eq_chars, push_str, str_chars, string_of, trim, trim_vec};
use crate::text::opt_view;

verus! {

/// The kind of a document node.
#[derive(Clone, Copy, Debug, PartialEq, Eq, Structural)]
pub enum DomKind {
    Root,
    Element,
    Text,
    Comment,
    Instruction,
}

/// One node of a parsed document.
#[derive(Clone, Debug)]
pub struct DomNode {
    pub id: u32,
    /// The id of the parent; `None` for the document itself.
    pub parent: Option<u32>,
    pub kind: DomKind,
    /// An element's local name; empty for other nodes.
    pub name: String,
    /// `Node::text` (only a text node's is read here).
    pub text: Option<String>,
    /// An element's attributes in order: local name and value.
    pub attrs: Vec<(String, String)>,
}

pub struct DomNodeV {
    pub id: u32,
    pub parent: Option<u32>,
    pub kind: DomKind,
    pub name: Seq<char>,
    pub text: Option<Seq<char>>,
    pub attrs: Seq<(Seq<char>, Seq<char>)>,
}

pub open spec fn attrs_view(a: Seq<(String, String)>) -> Seq<(Seq<char>, Seq<char>)> {
    a.map_values(|p: (String, String)| (p.0@, p.1@))
}

impl View for DomNode {
    type V = DomNodeV;

    open spec fn view(&self) -> DomNodeV {
        DomNodeV {
            id: self.id,
            parent: self.parent,
            kind: self.kind,
            name: self.name@,
            text: opt_view(self.text),
            attrs: attrs_view(self.attrs@),
        }
    }
}

pub open spec fn dom_view(v: Seq<DomNode>) -> Seq<DomNodeV> {
    v.map_values(|n: DomNode| n@)
}

/// What `roxmltree::Document::parse` makes of a text: the document's nodes
/// as `Document::descendants` lists them, or the error's message.
pub uninterp spec fn dom_of(text: Seq<char>) -> Result<Seq<DomNodeV>, Seq<char>>;

/// `roxmltree::Document::parse`, each node of `Document::descendants` read
/// back through `Node::id`, `Node::parent`, `Node::node_type`,
/// `Node::tag_name().name()`, `Node::text` and `Node::attributes`, and an
/// error through its `Display`. The contract names the result and claims
/// nothing else of it.
#[verifier::external_body]
fn parse_dom(text: &str) -> (r: Result<Vec<DomNode>, String>)
    ensures
        match r {
            Ok(v) => dom_of(text@) == Ok::<Seq<DomNodeV>, Seq<char>>(dom_view(v@)),
            Err(m) => dom_of(text@) == Err::<Seq<DomNodeV>, Seq<char>>(m@),
        },
{
    let doc = roxmltree::Document::parse(text).map_err(|e| e.to_string())?;
    Ok(doc.descendants().map(|n| DomNode {
        id: n.id().get(), parent: n.parent().map(|p| p.id().get()),
        kind: match n.node_type() {
            Root => DomKind::Root, Element => DomKind::Element, Text => DomKind::Text,
            Comment => DomKind::Comment, PI => DomKind::Instruction,
        },
        name: n.tag_name().name().to_string(), text: n.text().map(|t| t.to_string()),
        attrs: n.attributes().map(|a| (a.name().to_string(), a.value().to_string())).collect(),
    }).collect())
}

// ---------------------------------------------------------------- the tree

/// The first position at or after `k` of a node with the given id.
pub open spec fn first_id_from(doc: Seq<DomNodeV>, id: u32, k: int) -> Option<int>
    decreases doc.len() - k,
{
    if k < 0 || k >= doc.len() {
        None
    } else if doc[k].id == id {
        Some(k)
    } else {
        first_id_from(doc, id, k + 1)
    }
}

/// Where the node with an id stands: at the position equal to its id when
/// the node there has it (as `roxmltree` numbers its nodes), else at the
/// first position that has it.
pub open spec fn pos_of(doc: Seq<DomNodeV>, id: u32) -> Option<int> {
    if (id as int) < doc.len() && doc[id as int].id == id {
        Some(id as int)
    } else {
        first_id_from(doc, id, 0)
    }
}

/// Whether the node at `k` lies below the node with id `a`, following at
/// most `fuel` parent links.
pub open spec fn below(doc: Seq<DomNodeV>, a: u32, k: int, fuel: nat) -> bool
    decreases fuel,
{
    if fuel == 0 || k < 0 || k >= doc.len() {
        false
    } else {
        match doc[k].parent {
            None => false,
            Some(p) => p == a || match pos_of(doc, p) {
                Some(q) => below(doc, a, q, (fuel - 1) as nat),
                None => false,
            },
        }
    }
}

/// Whether the node at `j` is the node at `k` or one of its descendants.
pub open spec fn within(doc: Seq<DomNodeV>, k: int, j: int) -> bool {
    j == k || below(doc, doc[k].id, j, doc.len())
}

/// The text a node contributes: a text node's text, nothing for others.
pub open spec fn own_text(d: DomNodeV) -> Seq<char> {
    if d.kind == DomKind::Text {
        match d.text {
            Some(t) => t,
            None => Seq::empty(),
        }
    } else {
        Seq::empty()
    }
}

/// The texts of the first `n` nodes that lie within the node at `k`.
pub open spec fn texts_within(doc: Seq<DomNodeV>, k: int, n: int) -> Seq<char>
    decreases n,
{
    if n <= 0 {
        Seq::empty()
    } else {
        texts_within(doc, k, n - 1) + if within(doc, k, n - 1) {
            own_text(doc[n - 1])
        } else {
            Seq::empty()
        }
    }
}

/// The trimmed text of a node, `None` when empty.
pub open spec fn node_text_of(doc: Seq<DomNodeV>, k: int) -> Option<Seq<char>> {
    let t = trim(texts_within(doc, k, doc.len() as int));
    if t.len() == 0 {
        None
    } else {
        Some(t)
    }
}

/// An element child of the node with id `pid` with the given local name.
pub open spec fn is_named_child(d: DomNodeV, pid: u32, name: Seq<char>) -> bool {
    d.parent == Some(pid) && d.kind == DomKind::Element && d.name == name
}

/// The first position at or after `k` of such a child.
pub open spec fn child_from(doc: Seq<DomNodeV>, pid: u32, name: Seq<char>, k: int) -> Option<int>
    decreases doc.len() - k,
{
    if k < 0 || k >= doc.len() {
        None
    } else if is_named_child(doc[k], pid, name) {
        Some(k)
    } else {
        child_from(doc, pid, name, k + 1)
    }
}

/// The first element child of the node at `k` with the given name.
pub open spec fn child_of(doc: Seq<DomNodeV>, k: int, name: Seq<char>) -> Option<int> {
    child_from(doc, doc[k].id, name, 0)
}

/// The text of that child.
pub open spec fn child_text_of(doc: Seq<DomNodeV>, k: int, name: Seq<char>) -> Option<Seq<char>> {
    match child_of(doc, k, name) {
        Some(c) => node_text_of(doc, c),
        None => None,
    }
}

/// The first element at or after `k` whose parent has id `pid`.
pub open spec fn element_child_from(doc: Seq<DomNodeV>, pid: u32, k: int) -> Option<int>
    decreases doc.len() - k,
{
    if k < 0 || k >= doc.len() {
        None
    } else if doc[k].parent == Some(pid) && doc[k].kind == DomKind::Element {
        Some(k)
    } else {
        element_child_from(doc, pid, k + 1)
    }
}

/// The root element: the first element child of the document node.
pub open spec fn root_element_of(doc: Seq<DomNodeV>) -> Option<int> {
    if doc.len() == 0 {
        None
    } else {
        element_child_from(doc, doc[0].id, 0)
    }
}

/// The value of the first attribute with the given local name.
pub open spec fn attr_of(attrs: Seq<(Seq<char>, Seq<char>)>, name: Seq<char>) -> Option<Seq<char>>
    decreases attrs.len(),
{
    if attrs.len() == 0 {
        None
    } else if attrs[0].0 == name {
        Some(attrs[0].1)
    } else {
        attr_of(attrs.drop_first(), name)
    }
}

// ---------------------------------------------------------------- feeds

/// The format of a feed document.
#[derive(Clone, Copy, Debug, PartialEq, Eq, Structural)]
pub enum FeedFormat {
    Rss,
    Atom,
}

/// A parsed feed: its format, optional title and entries in document order.
#[derive(Clone, Debug)]
pub struct ParsedFeed {
    pub format: FeedFormat,
    pub title: Option<String>,
    pub entries: Vec<ParsedEntry>,
}

pub struct ParsedFeedV {
    pub format: FeedFormat,
    pub title: Option<Seq<char>>,
    pub entries: Seq<ParsedEntryV>,
}

impl View for ParsedFeed {
    type V = ParsedFeedV;

    open spec fn view(&self) -> ParsedFeedV {
        ParsedFeedV {
            format: self.format,
            title: opt_view(self.title),
            entries: self.entries@.map_values(|e: ParsedEntry| e@),
        }
    }
}

/// Why a document is not a feed.
#[derive(Clone, Debug)]
pub enum ParseError {
    /// The document is not well-formed XML.
    Xml(String),
    /// The root element is neither `<rss>` with a `<channel>` nor `<feed>`.
    Unrecognized,
}

pub enum ParseErrorV {
    Xml(Seq<char>),
    Unrecognized,
}

impl View for ParseError {
    type V = ParseErrorV;

    open spec fn view(&self) -> ParseErrorV {
        match self {
            ParseError::Xml(m) => ParseErrorV::Xml(m@),
            ParseError::Unrecognized => ParseErrorV::Unrecognized,
        }
    }
}

pub open spec fn result_view(r: Result<ParsedFeed, ParseError>) -> Result<ParsedFeedV, ParseErrorV> {
    match r {
        Ok(f) => Ok(f@),
        Err(e) => Err(e@),
    }
}

/// The identity of an entry without guid, id or link.
pub open spec fn synth_text(title: Option<Seq<char>>, link: Option<Seq<char>>) -> Seq<char> {
    "synth:"@ + match title {
        Some(t) => t,
        None => Seq::empty(),
    } + seq!['|'] + match link {
        Some(l) => l,
        None => Seq::empty(),
    }
}

/// An entry's identity: its key, else its link, else the synthesized one.
pub open spec fn identity_of(key: Option<Seq<char>>, link: Option<Seq<char>>, title: Option<Seq<char>>) -> Seq<char> {
    match key {
        Some(g) => g,
        None => match link {
            Some(l) => l,
            None => synth_text(title, link),
        },
    }
}

pub open spec fn title_or_untitled(t: Option<Seq<char>>) -> Seq<char> {
    match t {
        Some(t) => t,
        None => "(untitled)"@,
    }
}

/// An RSS item.
pub open spec fn rss_entry_of(doc: Seq<DomNodeV>, k: int) -> ParsedEntryV {
    let link = child_text_of(doc, k, "link"@);
    let title = child_text_of(doc, k, "title"@);
    ParsedEntryV {
        guid: identity_of(child_text_of(doc, k, "guid"@), link, title),
        title: title_or_untitled(title),
        link: link,
        summary: child_text_of(doc, k, "description"@),
        published_at: match child_text_of(doc, k, "pubDate"@) {
            Some(d) => pub_date_of(d),
            None => None,
        },
    }
}

/// The link an Atom entry points to: the first `<link rel="alternate">`,
/// else the first `<link>`; its `href`, else its text.
pub open spec fn alternate_from(doc: Seq<DomNodeV>, pid: u32, k: int) -> Option<int>
    decreases doc.len() - k,
{
    if k < 0 || k >= doc.len() {
        None
    } else if is_named_child(doc[k], pid, "link"@) && attr_of(doc[k].attrs, "rel"@) == Some("alternate"@) {
        Some(k)
    } else {
        alternate_from(doc, pid, k + 1)
    }
}

pub open spec fn atom_link_of(doc: Seq<DomNodeV>, k: int) -> Option<Seq<char>> {
    let chosen = match alternate_from(doc, doc[k].id, 0) {
        Some(a) => Some(a),
        None => child_of(doc, k, "link"@),
    };
    match chosen {
        Some(c) => match attr_of(doc[c].attrs, "href"@) {
            Some(h) => Some(h),
            None => node_text_of(doc, c),
        },
        None => None,
    }
}

/// An Atom entry.
pub open spec fn atom_entry_of(doc: Seq<DomNodeV>, k: int) -> ParsedEntryV {
    let link = atom_link_of(doc, k);
    let title = child_text_of(doc, k, "title"@);
    let date = match child_text_of(doc, k, "published"@) {
        Some(d) => Some(d),
        None => child_text_of(doc, k, "updated"@),
    };
    ParsedEntryV {
        guid: identity_of(child_text_of(doc, k, "id"@), link, title),
        title: title_or_untitled(title),
        link: link,
        summary: match child_text_of(doc, k, "summary"@) {
            Some(s) => Some(s),
            None => child_text_of(doc, k, "content"@),
        },
        published_at: match date {
            Some(d) => plain_rfc3339_of(d),
            None => None,
        },
    }
}

/// An entry read from the node at `k`: as an RSS item or an Atom entry.
pub open spec fn entry_at(doc: Seq<DomNodeV>, k: int, rss: bool) -> ParsedEntryV {
    if rss {
        rss_entry_of(doc, k)
    } else {
        atom_entry_of(doc, k)
    }
}

/// The entries read from the element children with the given name of the
/// node with id `pid`, among the first `n` nodes, in document order.
pub open spec fn entries_at(doc: Seq<DomNodeV>, pid: u32, name: Seq<char>, rss: bool, n: int) -> Seq<ParsedEntryV>
    decreases n,
{
    if n <= 0 {
        Seq::empty()
    } else if is_named_child(doc[n - 1], pid, name) {
        entries_at(doc, pid, name, rss, n - 1).push(entry_at(doc, n - 1, rss))
    } else {
        entries_at(doc, pid, name, rss, n - 1)
    }
}

/// The feed a tree holds.
pub open spec fn tree_feed_of(doc: Seq<DomNodeV>) -> Result<ParsedFeedV, ParseErrorV> {
    match root_element_of(doc) {
        None => Err(ParseErrorV::Unrecognized),
        Some(r) => if doc[r].name == "rss"@ {
            match child_of(doc, r, "channel"@) {
                None => Err(ParseErrorV::Unrecognized),
                Some(c) => Ok(
                    ParsedFeedV {
                        format: FeedFormat::Rss,
                        title: child_text_of(doc, c, "title"@),
                        entries: entries_at(doc, doc[c].id, "item"@, true, doc.len() as int),
                    },
                ),
            }
        } else if doc[r].name == "feed"@ {
            Ok(
                ParsedFeedV {
                    format: FeedFormat::Atom,
                    title: child_text_of(doc, r, "title"@),
                    entries: entries_at(doc, doc[r].id, "entry"@, false, doc.len() as int),
                },
            )
        } else {
            Err(ParseErrorV::Unrecognized)
        },
    }
}

/// An RSS tree with an item whose `pubDate` the date reader cannot take
/// (its month slice ends inside a character).
pub open spec fn tree_dates_panic(doc: Seq<DomNodeV>) -> bool {
    match root_element_of(doc) {
        Some(r) => doc[r].name == "rss"@ && match child_of(doc, r, "channel"@) {
            Some(c) => exists|k: int|
                0 <= k < doc.len() && is_named_child(doc[k], doc[c].id, "item"@) && (#[trigger] child_text_of(
                    doc,
                    k,
                    "pubDate"@,
                ) matches Some(d) && month_slice_panics(d)),
            None => false,
        },
        None => false,
    }
}

/// The text of a document: a leading BOM dropped, decoded lossily.
pub open spec fn doc_text(bytes: Seq<u8>) -> Seq<char> {
    utf8_lossy(without_bom(bytes))
}

/// What [`parse_feed`] returns for a document.
pub open spec fn feed_of(bytes: Seq<u8>) -> Result<ParsedFeedV, ParseErrorV> {
    match dom_of(doc_text(bytes)) {
        Err(m) => Err(ParseErrorV::Xml(m)),
        Ok(doc) => tree_feed_of(doc),
    }
}

/// Documents on which [`parse_feed`] cannot read an item's date.
pub open spec fn feed_dates_panic(bytes: Seq<u8>) -> bool {
    match dom_of(doc_text(bytes)) {
        Err(_) => false,
        Ok(doc) => tree_dates_panic(doc),
    }
}

// ---------------------------------------------------------------- reading

/// A publication date, when there is one, is a valid instant.
pub open spec fn date_ok(p: Option<Instant>) -> bool {
    p matches Some(t) ==> t.valid()
}

fn same(a: &String, b: &str) -> (r: bool)
    ensures
        r == (a@ == b@),
{
    let bs = b.to_owned();
    *a == bs
}

fn find_pos(doc: &Vec<DomNode>, id: u32) -> (r: Option<usize>)
    ensures
        r matches Some(p) ==> pos_of(dom_view(doc@), id) == Some(p as int) && p < doc@.len(),
        r is None ==> pos_of(dom_view(doc@), id) is None,
{
    let ghost dv = dom_view(doc@);
    let i = id as usize;
    if i < doc.len() && doc[i].id == id {
        assert(dv[i as int] == doc@[i as int]@);
        return Some(i);
    }
    proof {
        if (id as int) < dv.len() {
            assert(dv[id as int] == doc@[id as int]@);
        }
    }
    let mut k: usize = 0;
    while k < doc.len()
        invariant
            dv == dom_view(doc@),
            k <= doc@.len(),
            !((id as int) < dv.len() && dv[id as int].id == id),
            first_id_from(dv, id, 0) == first_id_from(dv, id, k as int),
        decreases doc@.len() - k,
    {
        assert(dv[k as int] == doc@[k as int]@);
        if doc[k].id == id {
            return Some(k);
        }
        k = k + 1;
    }
    None
}

fn is_within(doc: &Vec<DomNode>, k: usize, j: usize) -> (r: bool)
    requires
        k < doc@.len(),
        j < doc@.len(),
    ensures
        r == within(dom_view(doc@), k as int, j as int),
{
    let ghost dv = dom_view(doc@);
    if j == k {
        return true;
    }
    assert(dv[k as int] == doc@[k as int]@);
    let a = doc[k].id;
    let mut cur: usize = j;
    let mut fuel: usize = doc.len();
    loop
        invariant
            dv == dom_view(doc@),
            k < doc@.len(),
            j < doc@.len(),
            j != k,
            cur < doc@.len(),
            fuel <= doc@.len(),
            a == dv[k as int].id,
            below(dv, a, j as int, doc@.len() as nat) == below(dv, a, cur as int, fuel as nat),
        decreases fuel,
    {
        if fuel == 0 {
            return false;
        }
        assert(dv[cur as int] == doc@[cur as int]@);
        match doc[cur].parent {
            None => return false,
            Some(p) => {
                if p == a {
                    return true;
                }
                match find_pos(doc, p) {
                    None => return false,
                    Some(q) => {
                        cur = q;
                        fuel = fuel - 1;
                    },
                }
            },
        }
    }
}

fn node_text(doc: &Vec<DomNode>, k: usize) -> (r: Option<String>)
    requires
        k < doc@.len(),
    ensures
        opt_view(r) == node_text_of(dom_view(doc@), k as int),
{
    let ghost dv = dom_view(doc@);
    let mut out: Vec<char> = Vec::new();
    let mut j: usize = 0;
    while j < doc.len()
        invariant
            dv == dom_view(doc@),
            k < doc@.len(),
            j <= doc@.len(),
            out@ == texts_within(dv, k as int, j as int),
        decreases doc@.len() - j,
    {
        assert(dv[j as int] == doc@[j as int]@);
        if is_within(doc, k, j) && doc[j].kind == DomKind::Text {
            match &doc[j].text {
                Some(t) => push_str(&mut out, t.as_str()),
                None => {},
            }
        }
        proof {
            assert(dv.len() == doc@.len());
        }
        j = j + 1;
    }
    let t = trim_vec(out.as_slice());
    if t.len() == 0 {
        None
    } else {
        Some(string_of(t.as_slice()))
    }
}

fn find_child(doc: &Vec<DomNode>, k: usize, name: &str) -> (r: Option<usize>)
    requires
        k < doc@.len(),
    ensures
        r matches Some(c) ==> c < doc@.len() && child_of(dom_view(doc@), k as int, name@) == Some(c as int),
        r is None ==> child_of(dom_view(doc@), k as int, name@) is None,
{
    let ghost dv = dom_view(doc@);
    assert(dv[k as int] == doc@[k as int]@);
    let pid = doc[k].id;
    let mut j: usize = 0;
    while j < doc.len()
        invariant
            dv == dom_view(doc@),
            j <= doc@.len(),
            pid == dv[k as int].id,
            child_from(dv, pid, name@, 0) == child_from(dv, pid, name@, j as int),
        decreases doc@.len() - j,
    {
        assert(dv[j as int] == doc@[j as int]@);
        if doc[j].parent == Some(pid) && doc[j].kind == DomKind::Element && same(&doc[j].name, name) {
            return Some(j);
        }
        j = j + 1;
    }
    None
}

fn child_text(doc: &Vec<DomNode>, k: usize, name: &str) -> (r: Option<String>)
    requires
        k < doc@.len(),
    ensures
        opt_view(r) == child_text_of(dom_view(doc@), k as int, name@),
{
    match find_child(doc, k, name) {
        Some(c) => node_text(doc, c),
        None => None,
    }
}

fn attr(attrs: &Vec<(String, String)>, name: &str) -> (r: Option<String>)
    ensures
        opt_view(r) == attr_of(attrs_view(attrs@), name@),
{
    let ghost av = attrs_view(attrs@);
    let mut i: usize = 0;
    assert(av.skip(0) =~= av);
    while i < attrs.len()
        invariant
            av == attrs_view(attrs@),
            i <= attrs@.len(),
            attr_of(av, name@) == attr_of(av.skip(i as int), name@),
        decreases attrs@.len() - i,
    {
        assert(av.skip(i as int)[0] == av[i as int]);
        assert(av[i as int] == (attrs@[i as int].0@, attrs@[i as int].1@));
        assert(av.skip(i as int).drop_first() =~= av.skip(i + 1));
        if same(&attrs[i].0, name) {
            return Some(attrs[i].1.clone());
        }
        i = i + 1;
    }
    assert(av.skip(i as int) =~= Seq::<(Seq<char>, Seq<char>)>::empty());
    None
}

fn opt_clone(o: &Option<String>) -> (r: Option<String>)
    ensures
        opt_view(r) == opt_view(*o),
{
    match o {
        Some(s) => Some(s.clone()),
        None => None,
    }
}

fn synth_identity(title: &Option<String>, link: &Option<String>) -> (r: String)
    ensures
        r@ == synth_text(opt_view(*title), opt_view(*link)),
{
    let mut v = str_chars("synth:");
    match title {
        Some(t) => push_str(&mut v, t.as_str()),
        None => {},
    }
    v.push('|');
    match link {
        Some(l) => push_str(&mut v, l.as_str()),
        None => {},
    }
    assert(v@ =~= synth_text(opt_view(*title), opt_view(*link)));
    string_of(v.as_slice())
}

fn identity(key: Option<String>, link: &Option<String>, title: &Option<String>) -> (r: String)
    ensures
        r@ == identity_of(opt_view(key), opt_view(*link), opt_view(*title)),
{
    match key {
        Some(g) => g,
        None => match link {
            Some(l) => l.clone(),
            None => synth_identity(title, link),
        },
    }
}

fn untitled_or(t: &Option<String>) -> (r: String)
    ensures
        r@ == title_or_untitled(opt_view(*t)),
{
    match t {
        Some(s) => s.clone(),
        None => "(untitled)".to_owned(),
    }
}

fn rss_entry(doc: &Vec<DomNode>, k: usize) -> (r: ParsedEntry)
    requires
        k < doc@.len(),
        child_text_of(dom_view(doc@), k as int, "pubDate"@) matches Some(d) ==> !month_slice_panics(d),
    ensures
        r@ == rss_entry_of(dom_view(doc@), k as int),
        r.published_at matches Some(i) ==> i.valid(),
{
    let link = child_text(doc, k, "link");
    let title = child_text(doc, k, "title");
    let guid = identity(child_text(doc, k, "guid"), &link, &title);
    let published_at = match child_text(doc, k, "pubDate") {
        Some(d) => parse_rfc822(d.as_str()),
        None => None,
    };
    ParsedEntry {
        guid,
        title: untitled_or(&title),
        link,
        summary: child_text(doc, k, "description"),
        published_at,
    }
}

fn find_alternate(doc: &Vec<DomNode>, k: usize) -> (r: Option<usize>)
    requires
        k < doc@.len(),
    ensures
        r matches Some(c) ==> c < doc@.len() && alternate_from(dom_view(doc@), dom_view(doc@)[k as int].id, 0)
            == Some(c as int),
        r is None ==> alternate_from(dom_view(doc@), dom_view(doc@)[k as int].id, 0) is None,
{
    let ghost dv = dom_view(doc@);
    assert(dv[k as int] == doc@[k as int]@);
    let pid = doc[k].id;
    let mut j: usize = 0;
    while j < doc.len()
        invariant
            dv == dom_view(doc@),
            j <= doc@.len(),
            pid == dv[k as int].id,
            alternate_from(dv, pid, 0) == alternate_from(dv, pid, j as int),
        decreases doc@.len() - j,
    {
        assert(dv[j as int] == doc@[j as int]@);
        if doc[j].parent == Some(pid) && doc[j].kind == DomKind::Element && same(&doc[j].name, "link") {
            let rel = attr(&doc[j].attrs, "rel");
            let is_alt = match &rel {
                Some(v) => same(v, "alternate"),
                None => false,
            };
            if is_alt {
                return Some(j);
            }
        }
        j = j + 1;
    }
    None
}

fn atom_link(doc: &Vec<DomNode>, k: usize) -> (r: Option<String>)
    requires
        k < doc@.len(),
    ensures
        opt_view(r) == atom_link_of(dom_view(doc@), k as int),
{
    let ghost dv = dom_view(doc@);
    let chosen = match find_alternate(doc, k) {
        Some(a) => Some(a),
        None => find_child(doc, k, "link"),
    };
    match chosen {
        Some(c) => {
            assert(dv[c as int] == doc@[c as int]@);
            match attr(&doc[c].attrs, "href") {
                Some(h) => Some(h),
                None => node_text(doc, c),
            }
        },
        None => None,
    }
}

fn atom_entry(doc: &Vec<DomNode>, k: usize) -> (r: ParsedEntry)
    requires
        k < doc@.len(),
    ensures
        r@ == atom_entry_of(dom_view(doc@), k as int),
        r.published_at matches Some(i) ==> i.valid(),
{
    let link = atom_link(doc, k);
    let title = child_text(doc, k, "title");
    let guid = identity(child_text(doc, k, "id"), &link, &title);
    let summary = match child_text(doc, k, "summary") {
        Some(s) => Some(s),
        None => child_text(doc, k, "content"),
    };
    let date = match child_text(doc, k, "published") {
        Some(d) => Some(d),
        None => child_text(doc, k, "updated"),
    };
    let published_at = match date {
        Some(d) => parse_rfc3339(d.as_str()),
        None => None,
    };
    ParsedEntry { guid, title: untitled_or(&title), link, summary, published_at }
}

fn entries_of(doc: &Vec<DomNode>, k: usize, name: &str, rss: bool) -> (r: Vec<ParsedEntry>)
    requires
        k < doc@.len(),
        rss ==> name@ == "item"@,
        !rss ==> name@ == "entry"@,
        rss ==> forall|j: int|
            0 <= j < doc@.len() && is_named_child(dom_view(doc@)[j], dom_view(doc@)[k as int].id, "item"@)
                ==> !(#[trigger] child_text_of(dom_view(doc@), j, "pubDate"@) matches Some(d) && month_slice_panics(
                d,
            )),
    ensures
        r@.map_values(|e: ParsedEntry| e@) == entries_at(
            dom_view(doc@),
            dom_view(doc@)[k as int].id,
            name@,
            rss,
            doc@.len() as int,
        ),
        forall|i: int| 0 <= i < r@.len() ==> #[trigger] date_ok(r@[i].published_at),
{
    let ghost dv = dom_view(doc@);
    assert(dv[k as int] == doc@[k as int]@);
    let pid = doc[k].id;
    let mut out: Vec<ParsedEntry> = Vec::new();
    let mut j: usize = 0;
    assert(out@.map_values(|e: ParsedEntry| e@) =~= Seq::<ParsedEntryV>::empty());
    while j < doc.len()
        invariant
            dv == dom_view(doc@),
            dv.len() == doc@.len(),
            j <= doc@.len(),
            k < doc@.len(),
            pid == dv[k as int].id,
            rss ==> name@ == "item"@,
            !rss ==> name@ == "entry"@,
            rss ==> forall|i: int|
                0 <= i < doc@.len() && is_named_child(dv[i], pid, "item"@) ==> !(#[trigger] child_text_of(
                    dv,
                    i,
                    "pubDate"@,
                ) matches Some(d) && month_slice_panics(d)),
            out@.map_values(|e: ParsedEntry| e@) == entries_at(dv, pid, name@, rss, j as int),
            forall|i: int| 0 <= i < out@.len() ==> #[trigger] date_ok(out@[i].published_at),
        decreases doc@.len() - j,
    {
        assert(dv[j as int] == doc@[j as int]@);
        let ghost before = out@;
        if doc[j].parent == Some(pid) && doc[j].kind == DomKind::Element && same(&doc[j].name, name) {
            let e = if rss {
                rss_entry(doc, j)
            } else {
                atom_entry(doc, j)
            };
            out.push(e);
            assert(out@.map_values(|e: ParsedEntry| e@) =~= before.map_values(|e: ParsedEntry| e@).push(
                entry_at(dv, j as int, rss),
            ));
        }
        j = j + 1;
    }
    out
}

fn root_element(doc: &Vec<DomNode>) -> (r: Option<usize>)
    ensures
        r matches Some(p) ==> p < doc@.len() && root_element_of(dom_view(doc@)) == Some(p as int),
        r is None ==> root_element_of(dom_view(doc@)) is None,
{
    let ghost dv = dom_view(doc@);
    if doc.len() == 0 {
        return None;
    }
    assert(dv[0] == doc@[0]@);
    let top = doc[0].id;
    let mut j: usize = 0;
    while j < doc.len()
        invariant
            dv == dom_view(doc@),
            dv.len() > 0,
            top == dv[0].id,
            j <= doc@.len(),
            element_child_from(dv, top, 0) == element_child_from(dv, top, j as int),
        decreases doc@.len() - j,
    {
        assert(dv[j as int] == doc@[j as int]@);
        if doc[j].parent == Some(top) && doc[j].kind == DomKind::Element {
            return Some(j);
        }
        j = j + 1;
    }
    None
}

/// Read the feed a document tree holds.
///
/// The root element must be `<rss>` with a `<channel>` (RSS 2.0) or
/// `<feed>` (Atom); anything else is `Unrecognized`.
pub fn feed_from_tree(doc: &Vec<DomNode>) -> (r: Result<ParsedFeed, ParseError>)
    requires
        !tree_dates_panic(dom_view(doc@)),
    ensures
        result_view(r) == tree_feed_of(dom_view(doc@)),
        r matches Ok(f) ==> forall|i: int|
            0 <= i < f.entries@.len() ==> #[trigger] date_ok(f.entries@[i].published_at),
{
    let ghost dv = dom_view(doc@);
    let r = match root_element(doc) {
        None => return Err(ParseError::Unrecognized),
        Some(r) => r,
    };
    assert(dv[r as int] == doc@[r as int]@);
    if same(&doc[r].name, "rss") {
        match find_child(doc, r, "channel") {
            None => Err(ParseError::Unrecognized),
            Some(c) => {
                let title = child_text(doc, c, "title");
                let entries = entries_of(doc, c, "item", true);
                Ok(ParsedFeed { format: FeedFormat::Rss, title, entries })
            },
        }
    } else if same(&doc[r].name, "feed") {
        let title = child_text(doc, r, "title");
        let entries = entries_of(doc, r, "entry", false);
        Ok(ParsedFeed { format: FeedFormat::Atom, title, entries })
    } else {
        Err(ParseError::Unrecognized)
    }
}

fn dates_would_panic(doc: &Vec<DomNode>) -> (r: bool)
    ensures
        r == tree_dates_panic(dom_view(doc@)),
{
    let ghost dv = dom_view(doc@);
    let r = match root_element(doc) {
        None => return false,
        Some(r) => r,
    };
    assert(dv[r as int] == doc@[r as int]@);
    if !same(&doc[r].name, "rss") {
        return false;
    }
    let c = match find_child(doc, r, "channel") {
        None => return false,
        Some(c) => c,
    };
    assert(dv[c as int] == doc@[c as int]@);
    let cid = doc[c].id;
    let mut j: usize = 0;
    while j < doc.len()
        invariant
            dv == dom_view(doc@),
            j <= doc@.len(),
            c < doc@.len(),
            r < doc@.len(),
            root_element_of(dv) == Some(r as int),
            dv[r as int].name == "rss"@,
            child_of(dv, r as int, "channel"@) == Some(c as int),
            cid == dv[c as int].id,
            forall|i: int|
                0 <= i < j && is_named_child(dv[i], cid, "item"@) ==> !(#[trigger] child_text_of(
                    dv,
                    i,
                    "pubDate"@,
                ) matches Some(d) && month_slice_panics(d)),
        decreases doc@.len() - j,
    {
        assert(dv[j as int] == doc@[j as int]@);
        if doc[j].parent == Some(cid) && doc[j].kind == DomKind::Element && same(&doc[j].name, "item") {
            match child_text(doc, j, "pubDate") {
                Some(d) => if month_slice_would_panic(d.as_str()) {
                    assert(is_named_child(dv[j as int], cid, "item"@));
                    assert(child_text_of(dv, j as int, "pubDate"@) == Some(d@));
                    assert(dv.len() == doc@.len());
                    assert(root_element_of(dv) == Some(r as int));
                    assert(dv[r as int].name == "rss"@);
                    assert(child_of(dv, r as int, "channel"@) == Some(c as int));
                    assert(exists|k: int|
                        0 <= k < dv.len() && is_named_child(dv[k], dv[c as int].id, "item"@) && (
                        #[trigger] child_text_of(dv, k, "pubDate"@) matches Some(dd) && month_slice_panics(dd)));
                    return true;
                },
                None => {},
            }
        }
        j = j + 1;
    }
    false
}

/// Parse RSS 2.0 or Atom feed bytes, a leading UTF-8 BOM tolerated and
/// invalid UTF-8 decoded lossily.
pub fn parse_feed(bytes: &[u8]) -> (r: Result<ParsedFeed, ParseError>)
    requires
        !feed_dates_panic(bytes@),
    ensures
        result_view(r) == feed_of(bytes@),
        r matches Ok(f) ==> forall|i: int| 0 <= i < f.entries@.len() ==> #[trigger] date_ok(f.entries@[i].published_at),
{
    let body = strip_bom(bytes);
    let text = from_utf8_lossy(body);
    match parse_dom(text.as_str()) {
        Err(m) => Err(ParseError::Xml(m)),
        Ok(doc) => feed_from_tree(&doc),
    }
}

/// [`parse_feed`] on any document: `None` when an item's `pubDate` cannot
/// be read, where [`parse_feed`] cannot be called.
pub fn try_parse_feed(bytes: &[u8]) -> (r: Option<Result<ParsedFeed, ParseError>>)
    ensures
        r is None <==> feed_dates_panic(bytes@),
        r matches Some(x) ==> result_view(x) == feed_of(bytes@),
        r matches Some(Ok(f)) ==> forall|i: int| 0 <= i < f.entries@.len() ==> #[trigger] date_ok(f.entries@[i].published_at),
{
    let body = strip_bom(bytes);
    let text = from_utf8_lossy(body);
    match parse_dom(text.as_str()) {
        Err(_) => {},
        Ok(doc) => if dates_would_panic(&doc) {
            return None;
        },
    }
    Some(parse_feed(bytes))
}

/// The message of a parse error.
pub open spec fn parse_error_text(e: ParseErrorV) -> Seq<char> {
    match e {
        ParseErrorV::Xml(m) => "malformed XML: "@ + m,
        ParseErrorV::Unrecognized => "unrecognized feed format"@,
    }
}

impl ParseError {
    /// The error's message.
    pub fn message(&self) -> (r: String)
        ensures
            r@ == parse_error_text(self@),
    {
        match self {
            ParseError::Xml(m) => {
                let mut v = str_chars("malformed XML: ");
                push_str(&mut v, m.as_str());
                string_of(v.as_slice())
            },
            ParseError::Unrecognized => "unrecognized feed format".to_owned(),
        }
    }
}

/// A leading UTF-8 byte-order mark does not change what a document parses
/// to.
pub proof fn law_bom_tolerated(doc: Seq<u8>)
    requires
        !(doc.len() >= 3 && doc[0] == 0xEF && doc[1] == 0xBB && doc[2] == 0xBF),
    ensures
        feed_of(seq![0xEFu8, 0xBBu8, 0xBFu8] + doc) == feed_of(doc),
{
    let b = seq![0xEFu8, 0xBBu8, 0xBFu8] + doc;
    assert(b.skip(3) =~= doc);
}

/// An entry's identity is its `guid` (RSS) or `id` (Atom), else its link,
/// else `synth:TITLE|LINK`; a missing title is `(untitled)`; a missing date
/// is no date.
pub proof fn law_identity_and_defaults(doc: Seq<DomNodeV>, k: int)
    ensures
        child_text_of(doc, k, "guid"@) matches Some(g) ==> rss_entry_of(doc, k).guid == g,
        child_text_of(doc, k, "guid"@) is None && child_text_of(doc, k, "link"@) is Some ==> rss_entry_of(
            doc,
            k,
        ).guid == child_text_of(doc, k, "link"@)->0,
        child_text_of(doc, k, "guid"@) is None && child_text_of(doc, k, "link"@) is None ==> rss_entry_of(
            doc,
            k,
        ).guid == synth_text(child_text_of(doc, k, "title"@), None),
        child_text_of(doc, k, "id"@) matches Some(i) ==> atom_entry_of(doc, k).guid == i,
        child_text_of(doc, k, "title"@) is None ==> rss_entry_of(doc, k).title == "(untitled)"@
            && atom_entry_of(doc, k).title == "(untitled)"@,
        child_text_of(doc, k, "pubDate"@) is None ==> rss_entry_of(doc, k).published_at is None,
        child_text_of(doc, k, "published"@) is None && child_text_of(doc, k, "updated"@) is None ==> atom_entry_of(
            doc,
            k,
        ).published_at is None,
{
}

} // verus!
