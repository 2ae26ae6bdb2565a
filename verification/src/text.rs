//! Text handling for feed titles and summaries.
//!
//! A missing or blank title is stored as [`UNTITLED`]; other text fields are
//! trimmed and dropped when nothing but whitespace is left.
use vstd::prelude::*;
use crate::strs::{
    is_blank, is_blank_vec, lemma_blank_iff_trim_empty, lemma_trim_idempotent, str_chars, string_of, trim,
    trim_vec,
};

verus! {

/// The placeholder stored when a feed item has no usable title.
pub const UNTITLED: &'static str = "(untitled)";

/// The characters of [`UNTITLED`].
pub open spec fn untitled_text() -> Seq<char> {
    seq!['(', 'u', 'n', 't', 'i', 't', 'l', 'e', 'd', ')']
}

/// What [`title_or_untitled`] stores for an optional raw title.
pub open spec fn title_text(raw: Option<Seq<char>>) -> Seq<char> {
    match raw {
        Some(t) if !is_blank(t) => trim(t),
        _ => untitled_text(),
    }
}

/// What [`clean_opt`] keeps of an optional raw text.
pub open spec fn clean_text(raw: Option<Seq<char>>) -> Option<Seq<char>> {
    match raw {
        Some(t) if !is_blank(t) => Some(trim(t)),
        _ => None,
    }
}

pub open spec fn opt_view(o: Option<String>) -> Option<Seq<char>> {
    match o {
        Some(s) => Some(s@),
        None => None,
    }
}

/// The placeholder as an owned string.
pub fn untitled() -> (r: String)
    ensures
        r@ == untitled_text(),
{
    let s = UNTITLED.to_owned();
    proof {
        reveal_strlit("(untitled)");
    }
    assert(s@ =~= untitled_text());
    s
}

/// Trimmed text, or `None` when it is blank.
pub fn clean_chars(t: &str) -> (r: Option<String>)
    ensures
        opt_view(r) == clean_text(Some(t@)),
{
    let v = str_chars(t);
    if is_blank_vec(v.as_slice()) {
        None
    } else {
        let w = trim_vec(v.as_slice());
        Some(string_of(w.as_slice()))
    }
}

/// Collapse an optional, possibly-empty title into a concrete stored title.
pub fn title_or_untitled(raw: Option<String>) -> (r: String)
    ensures
        r@ == title_text(opt_view(raw)),
{
    match raw {
        Some(t) => match clean_chars(t.as_str()) {
            Some(c) => c,
            None => untitled(),
        },
        None => untitled(),
    }
}

/// Normalize a text field: trim outer whitespace; `None` if empty.
pub fn clean_opt(raw: Option<String>) -> (r: Option<String>)
    ensures
        opt_view(r) == clean_text(opt_view(raw)),
{
    match raw {
        Some(t) => clean_chars(t.as_str()),
        None => None,
    }
}

/// The placeholder is not blank and trims to itself.
proof fn lemma_untitled_is_clean()
    ensures
        !is_blank(untitled_text()),
        trim(untitled_text()) == untitled_text(),
{
    let u = untitled_text();
    assert(!crate::strs::is_ws(u[0]));
    assert(crate::strs::lead_ws(u) == 0);
    assert(crate::strs::trim_start(u) =~= u);
    assert(crate::strs::trail_ws(u) == 0);
    assert(trim(u) =~= u);
}

/// Cleaning is idempotent, and what it keeps is never empty.
pub proof fn law_clean_is_idempotent(raw: Option<Seq<char>>)
    ensures
        clean_text(clean_text(raw)) == clean_text(raw),
        clean_text(raw) matches Some(c) ==> c.len() > 0,
{
    if let Some(t) = raw {
        if !is_blank(t) {
            lemma_blank_iff_trim_empty(t);
            lemma_trim_idempotent(t);
            lemma_blank_iff_trim_empty(trim(t));
        }
    }
}

/// A stored title is never empty, and cleaning or storing it again gives it
/// back unchanged.
pub proof fn law_title_is_clean(raw: Option<Seq<char>>)
    ensures
        title_text(raw).len() > 0,
        clean_text(Some(title_text(raw))) == Some(title_text(raw)),
        title_text(Some(title_text(raw))) == title_text(raw),
{
    lemma_untitled_is_clean();
    if let Some(t) = raw {
        if !is_blank(t) {
            lemma_blank_iff_trim_empty(t);
            lemma_trim_idempotent(t);
            lemma_blank_iff_trim_empty(trim(t));
        }
    }
}

} // verus!
