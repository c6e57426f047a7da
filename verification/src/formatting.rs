//! Formatting deb822 documents by wrapping and sorting them.

use vstd::prelude::*;
use deb822_lossless::{Deb822, Indentation, Paragraph};
use rowan::ast::AstNode;
use crate::actions::TextEdit;
use crate::position::{position_at, text_range_to_lsp_range};
use crate::lsp::Range;
use crate::text::{fits_text_size, str_eq};

verus! {

#[verifier::external_type_specification]
#[verifier::external_body]
pub struct ExParagraph(deb822_lossless::Paragraph);

/// What a paragraph holds, as `deb822_lossless` builds it: the kinds of its
/// syntax nodes (the paragraph itself, its entries and any error nodes), in
/// preorder, each as the discriminant of `deb822_lossless::SyntaxKind`.
pub uninterp spec fn paragraph_node_kinds_of(p: Paragraph) -> Seq<u16>;

/// The discriminant of `deb822_lossless::SyntaxKind::ERROR` (the eighth
/// kind of that `#[repr(u16)]` enum).
pub open spec fn deb822_error_kind() -> u16 {
    7
}

/// The kinds of `p.syntax().descendants()` from `rowan`, each `kind()`
/// converted with `as u16`; see [`paragraph_node_kinds_of`].
#[verifier::external_body]
fn paragraph_node_kinds(p: &Paragraph) -> (r: Vec<u16>)
    ensures
        r@ == paragraph_node_kinds_of(*p),
{
    let mut r = Vec::new();
    for n in p.syntax().descendants() {
        r.push(n.kind() as u16);
    }
    r
}

/// `Paragraph::wrap_and_sort` from `deb822_lossless` with one-space
/// indentation, no empty line after the field name, one-line values up to
/// 79 columns, entries left in their order and values as written. Nothing
/// is stated of the result. As its source shows, it unwraps the children
/// of the paragraph and of its entries as tokens, so it panics on a
/// paragraph that holds an `ERROR` node; such paragraphs are left out.
#[verifier::external_body]
fn paragraph_wrapped(p: &Paragraph) -> Paragraph
    requires
        !paragraph_node_kinds_of(*p).contains(deb822_error_kind()),
{
    p.wrap_and_sort(Indentation::Spaces(1), false, Some(79), None, None)
}

/// `Clone::clone` of a `deb822_lossless::Paragraph`. Nothing is stated of
/// the result.
#[verifier::external_body]
fn paragraph_copy(p: &Paragraph) -> Paragraph {
    p.clone()
}

/// A paragraph wrapped as `wrap-and-sort` lays out debian/tests/control; a
/// paragraph holding an error node is kept as it is.
fn wrap_paragraph(p: &Paragraph) -> Paragraph {
    let kinds = paragraph_node_kinds(p);
    let mut i: usize = 0;
    while i < kinds.len()
        invariant
            i <= kinds.len(),
            kinds@ == paragraph_node_kinds_of(*p),
            forall|j: int| 0 <= j < i ==> kinds@[j] != deb822_error_kind(),
        decreases kinds.len() - i,
    {
        if kinds[i] == 7u16 {
            return paragraph_copy(p);
        }
        i += 1;
    }
    assert(!kinds@.contains(deb822_error_kind()));
    paragraph_wrapped(p)
}

/// How many errors `deb822_lossless` records when it parses `text`.
pub uninterp spec fn deb822_error_count_of(text: Seq<char>) -> nat;

/// `Deb822::parse(text)` from `deb822_lossless`, the length of its
/// `errors()`. The result is named, not described: it is what the parser
/// gives for `text`. Token offsets are `rowan::TextSize` values, so the
/// text must fit one.
#[verifier::external_body]
fn deb822_error_count(text: &str) -> (r: usize)
    requires
        fits_text_size(text@),
    ensures
        r == deb822_error_count_of(text@),
{
    Deb822::parse(text).errors().len()
}

/// What `deb822_lossless` writes back for `text` once its paragraphs are
/// wrapped by [`wrap_paragraph`] and left in their order.
pub uninterp spec fn wrapped_and_sorted_of(text: Seq<char>) -> Seq<char>;

/// `Deb822::parse(text).tree()` from `deb822_lossless`, then
/// `Deb822::wrap_and_sort` with the paragraphs unsorted and each wrapped
/// by [`wrap_paragraph`], written out with `to_string`. The result is
/// named, not described: it is what the crate gives for `text`. As the
/// source shows, `wrap_and_sort` panics on an `ERROR` node at the top level
/// or in a paragraph, and the parser builds one only where it records an
/// error, so the text must parse cleanly; its offsets must fit a
/// `rowan::TextSize`.
#[verifier::external_body]
fn wrap_and_sort_text(text: &str) -> (r: String)
    requires
        fits_text_size(text@),
        deb822_error_count_of(text@) == 0,
    ensures
        r@ == wrapped_and_sorted_of(text@),
{
    let deb822 = Deb822::parse(text).tree();
    deb822.wrap_and_sort(None, Some(&|p: &Paragraph| wrap_paragraph(p))).to_string()
}

/// The edit that formats `text` as `formatted`: none when nothing changes,
/// else one edit replacing the whole text.
pub open spec fn format_edit_spec(text: Seq<char>, formatted: Seq<char>) -> Option<(Range, Seq<char>)> {
    if formatted == text {
        None
    } else {
        Some(
            (
                Range {
                    start: position_at(text, 0),
                    end: position_at(text, vstd::utf8::encode_utf8(text).len() as int),
                },
                formatted,
            ),
        )
    }
}

/// The edits that format `text` as `formatted`.
pub fn format_edits(text: &str, formatted: String) -> (r: Option<Vec<TextEdit>>)
    requires
        2 * text@.len() <= u32::MAX,
    ensures
        match format_edit_spec(text@, formatted@) {
            Some(e) => r matches Some(v) && v.len() == 1 && v[0]@ == e,
            None => r is None,
        },
{
    if str_eq(formatted.as_str(), text) {
        return None;
    }
    let len = text.as_bytes().len();
    let range = text_range_to_lsp_range(text, 0, len);
    Some(vec![TextEdit { range, new_text: formatted }])
}

/// Format a deb822 document, such as debian/tests/control: wrap its
/// paragraphs and replace the whole text when that changes it. A text the
/// parser reports errors in is left as it is: no edit.
pub fn format_deb822(text: &str) -> (r: Option<Vec<TextEdit>>)
    requires
        2 * text@.len() <= u32::MAX,
        fits_text_size(text@),
    ensures
        deb822_error_count_of(text@) > 0 ==> r is None,
        deb822_error_count_of(text@) == 0 ==> match format_edit_spec(text@, wrapped_and_sorted_of(text@)) {
            Some(e) => r matches Some(v) && v.len() == 1 && v[0]@ == e,
            None => r is None,
        },
{
    if deb822_error_count(text) > 0 {
        return None;
    }
    let formatted = wrap_and_sort_text(text);
    format_edits(text, formatted)
}

} // verus!
