//! The stream of XML events that `quick-xml` reads from a document, as plain
//! values, and the resolution of character and entity references.
use vstd::prelude::*;
use quick_xml::events::BytesStart;
use quick_xml::events::Event::{CData, Empty, End, Eof, GeneralRef, Start, Text};
use quick_xml::name::{QName, ResolveResult};
use quick_xml::reader::{NsReader, Reader};
use quick_xml::XmlVersion;
use crate::strs::{str_chars, string_of};

verus! {

/// One event of a pull parse, with names and texts as strings.
///
/// `Start`/`Empty` carry the qualified element name and the tag's content
/// (name and attributes); `Text` is the
/// text between markup; `CData` the section's content verbatim; `Ref` the
/// name of a general reference (`amp`, `#x41`); `Error` the reader's message.
#[derive(Clone, Debug)]
pub enum XmlEvent {
    Start(String, String),
    Empty(String, String),
    End(String),
    Text(String),
    CData(String),
    Ref(String),
    Other,
    Eof,
    Error(String),
}

/// The view of an [`XmlEvent`].
pub enum XmlEv {
    Start(Seq<char>, Seq<char>),
    Empty(Seq<char>, Seq<char>),
    End(Seq<char>),
    Text(Seq<char>),
    CData(Seq<char>),
    Ref(Seq<char>),
    Other,
    Eof,
    Error(Seq<char>),
}

pub open spec fn attrs_view(a: Seq<(String, String)>) -> Seq<(Seq<char>, Seq<char>)> {
    a.map_values(|p: (String, String)| (p.0@, p.1@))
}

impl View for XmlEvent {
    type V = XmlEv;

    open spec fn view(&self) -> XmlEv {
        match self {
            XmlEvent::Start(n, c) => XmlEv::Start(n@, c@),
            XmlEvent::Empty(n, c) => XmlEv::Empty(n@, c@),
            XmlEvent::End(n) => XmlEv::End(n@),
            XmlEvent::Text(t) => XmlEv::Text(t@),
            XmlEvent::CData(t) => XmlEv::CData(t@),
            XmlEvent::Ref(t) => XmlEv::Ref(t@),
            XmlEvent::Other => XmlEv::Other,
            XmlEvent::Eof => XmlEv::Eof,
            XmlEvent::Error(m) => XmlEv::Error(m@),
        }
    }
}

pub open spec fn events_view(v: Seq<XmlEvent>) -> Seq<XmlEv> {
    v.map_values(|e: XmlEvent| e@)
}

pub open spec fn is_terminal(e: XmlEv) -> bool {
    e is Eof || e is Error
}

/// A stream that ends with its first end-of-input or error event.
pub open spec fn well_ended(s: Seq<XmlEv>) -> bool {
    &&& s.len() > 0
    &&& is_terminal(s.last())
    &&& forall|i: int| 0 <= i < s.len() - 1 ==> !is_terminal(#[trigger] s[i])
}

/// A start or empty-element tag's qualified name is where its content
/// begins.
pub open spec fn name_leads(ev: XmlEv) -> bool {
    match ev {
        XmlEv::Start(q, c) => q.is_prefix_of(c),
        XmlEv::Empty(q, c) => q.is_prefix_of(c),
        _ => true,
    }
}

pub open spec fn names_lead(s: Seq<XmlEv>) -> bool {
    forall|i: int| 0 <= i < s.len() ==> name_leads(#[trigger] s[i])
}

pub open spec fn ns_names_lead(s: Seq<(NsV, XmlEv)>) -> bool {
    forall|i: int| 0 <= i < s.len() ==> name_leads(#[trigger] s[i].1)
}

/// A byte offset into a text's UTF-8 encoding that falls between two of
/// its characters.
pub open spec fn is_char_boundary(text: Seq<char>, n: int) -> bool {
    exists|k: int| 0 <= k <= text.len() && n == vstd::utf8::encode_utf8(text.take(k)).len()
}

/// The UTF-8 length of a tag's name is a character boundary of its content.
pub proof fn lemma_name_boundary(q: Seq<char>, c: Seq<char>)
    requires
        q.is_prefix_of(c),
    ensures
        is_char_boundary(c, vstd::utf8::encode_utf8(q).len() as int),
{
    assert(c.take(q.len() as int) =~= q);
}

/// The length of a text's UTF-8 encoding, in bytes.
pub(crate) fn utf8_len(s: &str) -> (n: usize)
    ensures
        n as int == vstd::utf8::encode_utf8(s@).len(),
{
    s.as_bytes().len()
}

#[verifier::external_type_specification]
#[verifier::external_body]
#[verifier::reject_recursive_types(R)]
pub struct ExReader<R>(Reader<R>);

/// The events that `quick_xml::reader::Reader::read_event` yields for a
/// document, read with the default configuration (end names checked, empty
/// elements not expanded), up to and including the first end-of-input or
/// error.
pub uninterp spec fn xml_events(doc: Seq<u8>) -> Seq<XmlEv>;

/// The events a reader has yet to yield, up to and including its first
/// end-of-input or error.
pub uninterp spec fn pending_events(r: Reader<&[u8]>) -> Seq<XmlEv>;

/// `Reader::from_reader` on a byte slice, with end names checked and empty
/// elements reported as such; what it will yield is the document's event
/// stream.
#[verifier::external_body]
fn open_reader<'a>(bytes: &'a [u8]) -> (r: Reader<&'a [u8]>)
    ensures
        pending_events(r) == xml_events(bytes@),
        well_ended(pending_events(r)),
{
    let mut reader = Reader::from_reader(bytes);
    reader.config_mut().expand_empty_elements = false;
    reader.config_mut().check_end_names = true;
    reader
}

/// `Reader::read_event`, with the event's names, attributes and texts
/// copied out; the reader moves past the event. A tag's name is
/// `BytesStart::name`, the first `name_len` bytes of the content that
/// dereferencing the event gives, so it begins that content.
#[verifier::external_body]
fn next_event<'a>(r: &mut Reader<&'a [u8]>) -> (ev: XmlEvent)
    requires
        pending_events(*old(r)).len() > 0,
    ensures
        ev@ == pending_events(*old(r))[0],
        pending_events(*final(r)) == pending_events(*old(r)).drop_first(),
        name_leads(ev@),
{
    let ev = match r.read_event() {
        Ok(ev) => ev,
        Err(e) => return XmlEvent::Error(e.to_string()),
    };
    match ev {
        Start(e) => XmlEvent::Start(e.name().0.into(), String::from(&*e)),
        Empty(e) => XmlEvent::Empty(e.name().0.into(), String::from(&*e)),
        End(e) => XmlEvent::End(e.name().0.into()),
        Text(e) => XmlEvent::Text(e.into_inner().into()),
        CData(e) => XmlEvent::CData(e.into_inner().into()),
        GeneralRef(e) => XmlEvent::Ref(e.into_inner().into()),
        Eof => XmlEvent::Eof,
        _ => XmlEvent::Other,
    }
}

/// The attributes `BytesStart::attributes` reads from a start tag's content
/// (name followed by attributes) and the byte length of its name, as
/// (qualified key, raw value) pairs, malformed ones skipped.
pub uninterp spec fn start_attrs(content: Seq<char>, name_len: int) -> Seq<(Seq<char>, Seq<char>)>;

/// `BytesStart::from_content(..).attributes()`, keeping the well-formed
/// attributes. The iterator starts at byte `name_len` and slices the content
/// at the keys and values it finds, which panics unless `name_len` falls
/// between two characters: the `requires` keeps to such offsets.
#[verifier::external_body]
pub(crate) fn start_attributes(content: &str, name_len: usize) -> (r: Vec<(String, String)>)
    requires
        is_char_boundary(content@, name_len as int),
    ensures
        attrs_view(r@) == start_attrs(content@, name_len as int),
{
    BytesStart::from_content(content, name_len).attributes().flatten().map(|a| (a.key.0.into(), a.value.into())).collect()
}

/// All events of a document, up to and including the first end-of-input or
/// error.
pub fn read_events(bytes: &[u8]) -> (evs: Vec<XmlEvent>)
    ensures
        events_view(evs@) == xml_events(bytes@),
        names_lead(xml_events(bytes@)),
{
    let mut r = open_reader(bytes);
    let ghost all = xml_events(bytes@);
    let mut out: Vec<XmlEvent> = Vec::new();
    assert(events_view(out@) =~= Seq::<XmlEv>::empty());
    assert(all.skip(0) =~= all);
    loop
        invariant_except_break
            events_view(out@).len() < all.len(),
            pending_events(r) == all.skip(events_view(out@).len() as int),
        invariant
            well_ended(all),
            events_view(out@).len() <= all.len(),
            events_view(out@) == all.take(events_view(out@).len() as int),
            names_lead(events_view(out@)),
        ensures
            events_view(out@) == all,
            names_lead(events_view(out@)),
        decreases pending_events(r).len(),
    {
        let ghost k = events_view(out@).len() as int;
        let ev = next_event(&mut r);
        let stop = match ev {
            XmlEvent::Eof => true,
            XmlEvent::Error(_) => true,
            _ => false,
        };
        let ghost before = events_view(out@);
        out.push(ev);
        assert(events_view(out@) =~= before.push(ev@));
        assert(names_lead(events_view(out@))) by {
            assert forall|i: int| 0 <= i < events_view(out@).len() implies name_leads(
                #[trigger] events_view(out@)[i],
            ) by {
                if i < before.len() {
                    assert(events_view(out@)[i] == before[i]);
                }
            }
        }
        assert(all.take(k + 1) =~= all.take(k).push(all[k]));
        assert(all.skip(k).drop_first() =~= all.skip(k + 1));
        if stop {
            assert(is_terminal(all[k]));
            assert(k == all.len() - 1);
            assert(all.take(k + 1) =~= all);
            break;
        }
        assert(k < all.len() - 1) by {
            if k == all.len() - 1 {
                assert(is_terminal(all.last()));
            }
        }
    }
    out
}

/// The replacement text of the predefined XML entities.
pub open spec fn predefined_entity(name: Seq<char>) -> Option<Seq<char>> {
    if name == seq!['l', 't'] {
        Some(seq!['<'])
    } else if name == seq!['g', 't'] {
        Some(seq!['>'])
    } else if name == seq!['a', 'm', 'p'] {
        Some(seq!['&'])
    } else if name == seq!['a', 'p', 'o', 's'] {
        Some(seq!['\''])
    } else if name == seq!['q', 'u', 'o', 't'] {
        Some(seq!['"'])
    } else {
        None
    }
}

pub open spec fn hex_digit_val(c: char) -> int {
    if '0' <= c && c <= '9' {
        c as int - '0' as int
    } else if 'a' <= c && c <= 'f' {
        c as int - 'a' as int + 10
    } else if 'A' <= c && c <= 'F' {
        c as int - 'A' as int + 10
    } else {
        -1
    }
}

pub open spec fn is_radix_digit(c: char, radix: int) -> bool {
    0 <= hex_digit_val(c) < radix
}

/// Value of a string of digits in the given radix.
pub open spec fn radix_val(s: Seq<char>, radix: int) -> int
    decreases s.len(),
{
    if s.len() == 0 {
        0
    } else {
        radix_val(s.drop_last(), radix) * radix + hex_digit_val(s.last())
    }
}

/// A Unicode scalar value.
pub open spec fn is_scalar(v: int) -> bool {
    0 <= v <= 0x10FFFF && !(0xD800 <= v <= 0xDFFF)
}

/// The digits of a character reference name (`#ddd` or `#xhh`).
pub open spec fn ref_digits(name: Seq<char>) -> Seq<char> {
    let num = name.drop_first();
    if num.len() > 0 && num[0] == 'x' {
        num.drop_first()
    } else {
        num
    }
}

pub open spec fn ref_radix(name: Seq<char>) -> int {
    let num = name.drop_first();
    if num.len() > 0 && num[0] == 'x' {
        16
    } else {
        10
    }
}

pub open spec fn all_radix_digits(d: Seq<char>, radix: int) -> bool {
    forall|i: int| 0 <= i < d.len() ==> is_radix_digit(#[trigger] d[i], radix)
}

/// The character of a character reference `#ddd` / `#xhh` (without `&`
/// and `;`): at least one digit, no sign, a value that fits in `u32`, is
/// not zero and is a Unicode scalar value.
pub open spec fn char_ref(name: Seq<char>) -> Option<char> {
    let d = ref_digits(name);
    let radix = ref_radix(name);
    let v = radix_val(d, radix);
    if d.len() > 0 && all_radix_digits(d, radix) && v <= u32::MAX && v != 0 && is_scalar(v) {
        Some(v as char)
    } else {
        None
    }
}

/// The text a general reference stands for: a character reference
/// (`#...`) or a predefined entity; `None` when it is neither.
pub open spec fn resolve_ref(name: Seq<char>) -> Option<Seq<char>> {
    if name.len() > 0 && name[0] == '#' {
        match char_ref(name) {
            Some(c) => Some(seq![c]),
            None => None,
        }
    } else {
        predefined_entity(name)
    }
}

/// `quick_xml::events::BytesRef::resolve_char_ref` on a reference that
/// starts with `#`. Its source strips the `#`, reads hexadecimal digits after
/// an `x` and decimal digits otherwise (refusing a sign, an empty string,
/// another character or a value past `u32::MAX`, as `u32::from_str_radix`
/// does), refuses 0 and turns the value into a `char` by `char::from_u32`.
/// An error comes back as `None`.
#[verifier::external_body]
fn resolve_char_reference(name: &str) -> (r: Option<char>)
    requires
        name@.len() > 0,
        name@[0] == '#',
    ensures
        r == char_ref(name@),
{
    match quick_xml::events::BytesRef::new(name).resolve_char_ref() {
        Ok(c) => c,
        Err(_) => None,
    }
}

/// `quick_xml::escape::resolve_xml_entity`: its source maps `lt`, `gt`,
/// `amp`, `apos` and `quot` to `<`, `>`, `&`, `'` and `"`, and every other
/// name to `None`.
#[verifier::external_body]
fn resolve_xml_entity(name: &str) -> (r: Option<String>)
    ensures
        opt_string_view(r) == predefined_entity(name@),
{
    quick_xml::escape::resolve_xml_entity(name).map(String::from)
}

/// Resolve a general reference the way `quick-xml` resolves character
/// references and predefined entities.
pub fn resolve_reference(name: &str) -> (r: Option<String>)
    ensures
        r matches Some(s) ==> resolve_ref(name@) == Some(s@),
        r is None ==> resolve_ref(name@) is None,
{
    let v = str_chars(name);
    if v.len() > 0 && v[0] == '#' {
        match resolve_char_reference(name) {
            Some(c) => {
                let mut out: Vec<char> = Vec::new();
                out.push(c);
                assert(out@ =~= seq![c]);
                Some(string_of(out.as_slice()))
            },
            None => None,
        }
    } else {
        resolve_xml_entity(name)
    }
}

// ---------------------------------------------------------------- namespaces

/// The namespace an element's name resolves to: none, a namespace URI, or a
/// prefix that no declaration in scope binds.
#[derive(Clone, Debug)]
pub enum Ns {
    Unbound,
    Bound(String),
    Unknown(String),
}

pub enum NsV {
    Unbound,
    Bound(Seq<char>),
    Unknown(Seq<char>),
}

impl View for Ns {
    type V = NsV;

    open spec fn view(&self) -> NsV {
        match self {
            Ns::Unbound => NsV::Unbound,
            Ns::Bound(u) => NsV::Bound(u@),
            Ns::Unknown(p) => NsV::Unknown(p@),
        }
    }
}

pub open spec fn ns_events_view(v: Seq<(Ns, XmlEvent)>) -> Seq<(NsV, XmlEv)> {
    v.map_values(|p: (Ns, XmlEvent)| (p.0@, p.1@))
}

/// A resolved stream that ends with its first end-of-input or error event.
pub open spec fn ns_well_ended(s: Seq<(NsV, XmlEv)>) -> bool {
    &&& s.len() > 0
    &&& is_terminal(s.last().1)
    &&& forall|i: int| 0 <= i < s.len() - 1 ==> !is_terminal(#[trigger] s[i].1)
}

#[verifier::external_type_specification]
#[verifier::external_body]
#[verifier::reject_recursive_types(R)]
pub struct ExNsReader<R>(NsReader<R>);

/// The events, each with the namespace of its element name, that
/// `NsReader::read_resolved_event` yields for a text read with end names
/// checked, up to and including the first end-of-input or error.
pub uninterp spec fn ns_events(text: Seq<char>) -> Seq<(NsV, XmlEv)>;

/// The resolved events a namespace-aware reader has yet to yield.
pub uninterp spec fn pending_ns_events(r: NsReader<&[u8]>) -> Seq<(NsV, XmlEv)>;

/// `NsReader::from_str` with end names checked.
#[verifier::external_body]
fn open_ns_reader<'a>(text: &'a str) -> (r: NsReader<&'a [u8]>)
    ensures
        pending_ns_events(r) == ns_events(text@),
        ns_well_ended(pending_ns_events(r)),
{
    let mut reader = NsReader::from_str(text);
    reader.config_mut().check_end_names = true;
    reader
}

/// The namespace `NamespaceResolver::resolve_element` gives a qualified
/// element name with the bindings a namespace-aware reader has in scope.
pub uninterp spec fn ns_in_scope(r: NsReader<&[u8]>, q: Seq<char>) -> NsV;

/// `NsReader::read_event`, with the event's names and texts copied out; the
/// reader moves past the event. A tag's name begins its content, as with
/// [`next_event`]. As the source of `read_resolved_event`
/// shows, the namespace it pairs with an element event is what
/// `resolve_element` gives the element's name right after the read, and
/// with any other event it is unbound.
#[verifier::external_body]
fn next_ns_event<'a>(r: &mut NsReader<&'a [u8]>) -> (ev: XmlEvent)
    requires
        pending_ns_events(*old(r)).len() > 0,
    ensures
        ev@ == pending_ns_events(*old(r))[0].1,
        pending_ns_events(*final(r)) == pending_ns_events(*old(r)).drop_first(),
        ev@ matches XmlEv::Start(q, _) ==> ns_in_scope(*final(r), q) == pending_ns_events(*old(r))[0].0,
        ev@ matches XmlEv::Empty(q, _) ==> ns_in_scope(*final(r), q) == pending_ns_events(*old(r))[0].0,
        ev@ matches XmlEv::End(q) ==> ns_in_scope(*final(r), q) == pending_ns_events(*old(r))[0].0,
        !(ev@ is Start || ev@ is Empty || ev@ is End) ==> pending_ns_events(*old(r))[0].0 == NsV::Unbound,
        name_leads(ev@),
{
    let ev = match r.read_event() {
        Ok(ev) => ev,
        Err(e) => return XmlEvent::Error(e.to_string()),
    };
    match ev {
        Start(e) => XmlEvent::Start(e.name().0.into(), String::from(&*e)),
        Empty(e) => XmlEvent::Empty(e.name().0.into(), String::from(&*e)),
        End(e) => XmlEvent::End(e.name().0.into()),
        Text(e) => XmlEvent::Text(e.into_inner().into()),
        CData(e) => XmlEvent::CData(e.into_inner().into()),
        GeneralRef(e) => XmlEvent::Ref(e.into_inner().into()),
        Eof => XmlEvent::Eof,
        _ => XmlEvent::Other,
    }
}

/// `NamespaceResolver::resolve_element` on the reader's bindings in scope.
#[verifier::external_body]
fn element_ns<'a>(r: &NsReader<&'a [u8]>, q: &str) -> (ns: Ns)
    ensures
        ns@ == ns_in_scope(*r, q@),
{
    match r.resolver().resolve_element(QName(q)).0 {
        ResolveResult::Bound(u) => Ns::Bound(u.0.into()),
        ResolveResult::Unknown(p) => Ns::Unknown(p),
        ResolveResult::Unbound => Ns::Unbound,
    }
}

/// The next event with the namespace of its element name.
fn next_resolved<'a>(r: &mut NsReader<&'a [u8]>) -> (p: (Ns, XmlEvent))
    requires
        pending_ns_events(*old(r)).len() > 0,
    ensures
        (p.0@, p.1@) == pending_ns_events(*old(r))[0],
        pending_ns_events(*final(r)) == pending_ns_events(*old(r)).drop_first(),
        name_leads(p.1@),
{
    let ev = next_ns_event(r);
    let ns = match &ev {
        XmlEvent::Start(q, _) => element_ns(r, q.as_str()),
        XmlEvent::Empty(q, _) => element_ns(r, q.as_str()),
        XmlEvent::End(q) => element_ns(r, q.as_str()),
        _ => Ns::Unbound,
    };
    (ns, ev)
}

/// All resolved events of a text, up to and including the first
/// end-of-input or error.
pub fn read_ns_events(text: &str) -> (evs: Vec<(Ns, XmlEvent)>)
    ensures
        ns_events_view(evs@) == ns_events(text@),
        ns_well_ended(ns_events(text@)),
        ns_names_lead(ns_events(text@)),
{
    let mut r = open_ns_reader(text);
    let ghost all = ns_events(text@);
    let mut out: Vec<(Ns, XmlEvent)> = Vec::new();
    assert(ns_events_view(out@) =~= Seq::<(NsV, XmlEv)>::empty());
    assert(all.skip(0) =~= all);
    loop
        invariant_except_break
            ns_events_view(out@).len() < all.len(),
            pending_ns_events(r) == all.skip(ns_events_view(out@).len() as int),
        invariant
            ns_well_ended(all),
            all == ns_events(text@),
            ns_events_view(out@).len() <= all.len(),
            ns_events_view(out@) == all.take(ns_events_view(out@).len() as int),
            ns_names_lead(ns_events_view(out@)),
        ensures
            ns_events_view(out@) == all,
            ns_names_lead(ns_events_view(out@)),
        decreases pending_ns_events(r).len(),
    {
        let ghost k = ns_events_view(out@).len() as int;
        let p = next_resolved(&mut r);
        let stop = match p.1 {
            XmlEvent::Eof => true,
            XmlEvent::Error(_) => true,
            _ => false,
        };
        let ghost before = ns_events_view(out@);
        let ghost pv = (p.0@, p.1@);
        out.push(p);
        assert(ns_events_view(out@) =~= before.push(pv));
        assert(ns_names_lead(ns_events_view(out@))) by {
            assert forall|i: int| 0 <= i < ns_events_view(out@).len() implies name_leads(
                #[trigger] ns_events_view(out@)[i].1,
            ) by {
                if i < before.len() {
                    assert(ns_events_view(out@)[i] == before[i]);
                }
            }
        }
        assert(all.take(k + 1) =~= all.take(k).push(all[k]));
        assert(all.skip(k).drop_first() =~= all.skip(k + 1));
        if stop {
            assert(is_terminal(all[k].1));
            assert(k == all.len() - 1);
            assert(all.take(k + 1) =~= all);
            break;
        }
        assert(k < all.len() - 1) by {
            if k == all.len() - 1 {
                assert(is_terminal(all.last().1));
            }
        }
    }
    out
}

/// The attributes `BytesStart::attributes` reads from a start tag's content
/// and the byte length of its name: for each, the reader's message when it
/// is malformed, else its qualified key and its value normalized for XML 1.0
/// with references resolved (`Attribute::normalized_value`), or the message
/// when that fails.
pub uninterp spec fn tag_attribute_items(content: Seq<char>, name_len: int) -> Seq<AttrItemV>;

pub type AttrItem = Result<(String, Result<String, String>), String>;

pub type AttrItemV = Result<(Seq<char>, Result<Seq<char>, Seq<char>>), Seq<char>>;

pub open spec fn attr_item_view(a: AttrItem) -> AttrItemV {
    match a {
        Ok((k, Ok(v))) => Ok((k@, Ok(v@))),
        Ok((k, Err(m))) => Ok((k@, Err(m@))),
        Err(m) => Err(m@),
    }
}

pub open spec fn attr_items_view(v: Seq<AttrItem>) -> Seq<AttrItemV> {
    v.map_values(|a: AttrItem| attr_item_view(a))
}

/// `BytesStart::from_content(..).attributes()`, each attribute's value
/// normalized for XML 1.0 (what the deprecated `unescape_value` also
/// returns); errors are kept as their messages. As with
/// [`start_attributes`], `name_len` must fall between two characters of
/// `content`, else the iterator panics.
#[verifier::external_body]
pub(crate) fn tag_attributes_unescaped(content: &str, name_len: usize) -> (r: Vec<AttrItem>)
    requires
        is_char_boundary(content@, name_len as int),
    ensures
        attr_items_view(r@) == tag_attribute_items(content@, name_len as int),
{
    BytesStart::from_content(content, name_len).attributes().map(|a| a.map_err(|e| e.to_string()).map(|a| (
        a.key.0.to_owned(),
        a.normalized_value(XmlVersion::Explicit1_0).map(|v| v.into_owned()).map_err(|e| e.to_string()),
    ))).collect()
}

/// The replacement text `quick_xml::escape::resolve_html5_entity` gives an
/// entity name (the HTML5 named character references, without `&` and `;`).
pub uninterp spec fn html5_entity(name: Seq<char>) -> Option<Seq<char>>;

/// `quick_xml::escape::resolve_html5_entity`. Among the names its table
/// maps are the five predefined XML entities, to their usual characters.
#[verifier::external_body]
pub(crate) fn resolve_html5(name: &str) -> (r: Option<String>)
    ensures
        opt_string_view(r) == html5_entity(name@),
        predefined_entity(name@) is Some ==> opt_string_view(r) == predefined_entity(name@),
{
    quick_xml::escape::resolve_html5_entity(name).map(String::from)
}

pub open spec fn opt_string_view(o: Option<String>) -> Option<Seq<char>> {
    match o {
        Some(s) => Some(s@),
        None => None,
    }
}

} // verus!
