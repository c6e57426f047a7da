//! Go-to-definition for package names in debian/control relationship fields.

use vstd::prelude::*;
use crate::text::fits_text_size;
use debian_control::lossless::relations::Relations;
use debian_control::lossless::Control;
use crate::lsp::{Range, opt_view};
use crate::position::{position_at, text_range_to_lsp_range};
use crate::text::str_eq;

verus! {

/// The tokens of a field value as `debian_control`'s relaxed relations
/// parser reads it, in order: byte range, kind, the kind of its parent
/// node if it has one, and its text. Kinds are discriminants of
/// `debian_control::relations::SyntaxKind`.
pub uninterp spec fn relation_tokens_of(value: Seq<char>) -> Seq<(int, int, u16, Option<u16>, Seq<char>)>;

/// The discriminant of `SyntaxKind::IDENT`, a package name (the first kind
/// of that `#[repr(u16)]` enum).
pub open spec fn ident_kind() -> u16 {
    0
}

/// The discriminant of `SyntaxKind::RELATION`, one alternative of a
/// dependency (the twenty-second kind of that enum).
pub open spec fn relation_kind() -> u16 {
    21
}

/// A token as plain values.
pub open spec fn token_view(t: (usize, usize, u16, Option<u16>, String)) -> (int, int, u16, Option<u16>, Seq<char>) {
    (t.0 as int, t.1 as int, t.2, t.3, t.4@)
}

/// The models of a list of tokens.
pub open spec fn tokens_view(v: Seq<(usize, usize, u16, Option<u16>, String)>) -> Seq<(int, int, u16, Option<u16>, Seq<char>)> {
    v.map_values(|t: (usize, usize, u16, Option<u16>, String)| token_view(t))
}

/// `Relations::parse_relaxed(value, false)` from `debian_control`, its
/// syntax tree walked token by token from `first_token` through
/// `next_token`, each token given as its byte range, its `kind()` and its
/// parent node's `kind()` converted with `as u16`, and its text. The result
/// is named, not described: it is what the parser gives for `value`.
#[verifier::external_body]
fn relation_tokens(value: &str) -> (r: Vec<(usize, usize, u16, Option<u16>, String)>)
    requires
        fits_text_size(value@),
    ensures
        tokens_view(r@) == relation_tokens_of(value@),
{
    let (relations, _errors) = Relations::parse_relaxed(value, false);
    let mut r = Vec::new();
    let mut tok = relations.syntax().first_token();
    while let Some(t) = tok {
        let parent = t.parent().map(|p| p.kind() as u16);
        let range = t.text_range();
        r.push((range.start().into(), range.end().into(), t.kind() as u16, parent, t.text().to_string()));
        tok = t.next_token();
    }
    r
}

/// The text of the first token that is an `IDENT` directly under a
/// `RELATION` node and whose range holds `off` (its ends included).
pub open spec fn package_token_at(tokens: Seq<(int, int, u16, Option<u16>, Seq<char>)>, off: int) -> Option<Seq<char>>
    decreases tokens.len(),
{
    if tokens.len() == 0 {
        None
    } else if tokens[0].2 == ident_kind() && tokens[0].0 <= off <= tokens[0].1 && tokens[0].3 == Some(relation_kind()) {
        Some(tokens[0].4)
    } else {
        package_token_at(tokens.drop_first(), off)
    }
}

/// The package name among `tokens` whose range holds the offset.
pub fn package_in_tokens(tokens: &Vec<(usize, usize, u16, Option<u16>, String)>, offset_in_value: usize) -> (r: Option<String>)
    ensures
        opt_view(r) == package_token_at(tokens_view(tokens@), offset_in_value as int),
{
    let ghost tv = tokens_view(tokens@);
    let mut i: usize = 0;
    assert(tv.skip(0) =~= tv);
    while i < tokens.len()
        invariant
            i <= tokens.len(),
            tv == tokens_view(tokens@),
            package_token_at(tv, offset_in_value as int) == package_token_at(tv.skip(i as int), offset_in_value as int),
        decreases tokens.len() - i,
    {
        let (start, end, kind, parent, text) = &tokens[i];
        assert(tv.skip(i as int)[0] == token_view(tokens@[i as int]));
        let in_relation = match parent {
            Some(k) => *k == 21u16,
            None => false,
        };
        if *kind == 0u16 && *start <= offset_in_value && offset_in_value <= *end && in_relation {
            return Some(String::from_str(text.as_str()));
        }
        assert(tv.skip(i as int).drop_first() =~= tv.skip(i + 1));
        i += 1;
    }
    None
}

/// Find the package name at the cursor position within a relationship field value.
///
/// Parses the full field value, then walks the tokens to find the IDENT
/// inside a RELATION node that covers the cursor byte offset.
pub fn find_package_at_offset(value: &str, offset_in_value: usize) -> (r: Option<String>)
    requires
        fits_text_size(value@),
    ensures
        opt_view(r) == package_token_at(relation_tokens_of(value@), offset_in_value as int),
{
    let tokens = relation_tokens(value);
    package_in_tokens(&tokens, offset_in_value)
}

/// A binary package paragraph: its `Package` name, if any, and its range.
pub struct BinaryParagraph {
    pub name: Option<String>,
    pub range: Range,
}

impl View for BinaryParagraph {
    type V = (Option<Seq<char>>, Range);

    open spec fn view(&self) -> (Option<Seq<char>>, Range) {
        (opt_view(self.name), self.range)
    }
}

/// The models of a list of paragraphs.
pub open spec fn paragraphs_view(v: Seq<BinaryParagraph>) -> Seq<(Option<Seq<char>>, Range)> {
    v.map_values(|b: BinaryParagraph| b@)
}

/// A location in a document.
pub struct Location {
    pub uri: String,
    pub range: Range,
}

/// The range of the first paragraph of `binaries` named `name`.
pub open spec fn binary_range(binaries: Seq<(Option<Seq<char>>, Range)>, name: Seq<char>) -> Option<Range>
    decreases binaries.len(),
{
    if binaries.len() == 0 {
        None
    } else if binaries[0].0 == Some(name) {
        Some(binaries[0].1)
    } else {
        binary_range(binaries.drop_first(), name)
    }
}

/// Resolve a package name to its location in a control file.
///
/// Returns a `Location` pointing to the matching binary package paragraph,
/// or `None` if no binary package with that name is defined in the file.
pub fn find_binary_package_location(
    binaries: &Vec<BinaryParagraph>,
    uri: &str,
    package_name: &str,
) -> (r: Option<Location>)
    ensures
        match r {
            Some(loc) => loc.uri@ == uri@ && binary_range(paragraphs_view(binaries@), package_name@)
                == Some(loc.range),
            None => binary_range(paragraphs_view(binaries@), package_name@).is_none(),
        },
{
    let ghost bv = paragraphs_view(binaries@);
    let mut i: usize = 0;
    assert(bv.skip(0) =~= bv);
    while i < binaries.len()
        invariant
            i <= binaries.len(),
            bv == paragraphs_view(binaries@),
            binary_range(bv, package_name@) == binary_range(bv.skip(i as int), package_name@),
        decreases binaries.len() - i,
    {
        let b = &binaries[i];
        assert(bv.skip(i as int)[0] == binaries@[i as int]@);
        let matches = match &b.name {
            Some(n) => str_eq(n.as_str(), package_name),
            None => false,
        };
        if matches {
            return Some(Location { uri: String::from_str(uri), range: b.range });
        }
        assert(bv.skip(i as int).drop_first() =~= bv.skip(i + 1));
        i += 1;
    }
    None
}

/// What `debian_control` finds in the text of a control file: for each
/// binary package paragraph, in order, its `Package` name and the byte
/// range of the paragraph.
pub uninterp spec fn control_binaries_of(text: Seq<char>) -> Seq<(Option<Seq<char>>, int, int)>;

/// A paragraph found by the parser, as plain values.
pub open spec fn found_view(b: (Option<String>, usize, usize)) -> (Option<Seq<char>>, int, int) {
    (opt_view(b.0), b.1 as int, b.2 as int)
}

/// `Control::parse(text)` from `debian_control`, each of `binaries()` given
/// as `Binary::name` and the byte range of its paragraph. The result is
/// named, not described: it is what the parser gives for `text`.
#[verifier::external_body]
fn control_binaries(text: &str) -> (r: Vec<(Option<String>, usize, usize)>)
    requires
        fits_text_size(text@),
    ensures
        r@.map_values(|b: (Option<String>, usize, usize)| found_view(b)) == control_binaries_of(text@),
{
    let control = Control::parse(text).tree();
    let mut r = Vec::new();
    for binary in control.binaries() {
        let range = binary.as_deb822().text_range();
        r.push((binary.name(), range.start().into(), range.end().into()));
    }
    r
}

/// The binary package paragraphs of a control file, their ranges as LSP
/// ranges.
pub open spec fn binaries_in(text: Seq<char>) -> Seq<(Option<Seq<char>>, Range)> {
    paragraphs_at(text, control_binaries_of(text))
}

/// Paragraphs given by name and byte range, their ranges as LSP ranges of
/// `text`.
pub open spec fn paragraphs_at(text: Seq<char>, found: Seq<(Option<Seq<char>>, int, int)>) -> Seq<(Option<Seq<char>>, Range)> {
    found.map_values(
        |b: (Option<Seq<char>>, int, int)|
            (b.0, Range { start: position_at(text, b.1), end: position_at(text, b.2) }),
    )
}

/// The binary package paragraphs of the control file `text`.
pub fn binary_paragraphs(text: &str) -> (r: Vec<BinaryParagraph>)
    requires
        fits_text_size(text@),
        2 * text@.len() <= u32::MAX,
    ensures
        paragraphs_view(r@) == binaries_in(text@),
{
    let found = control_binaries(text);
    paragraphs_of(text, &found)
}

/// The paragraphs `found` (name, byte range) of the control file `text`,
/// their ranges as LSP ranges.
pub fn paragraphs_of(text: &str, found: &Vec<(Option<String>, usize, usize)>) -> (r: Vec<BinaryParagraph>)
    requires
        2 * text@.len() <= u32::MAX,
    ensures
        paragraphs_view(r@) == paragraphs_at(text@, found@.map_values(|b: (Option<String>, usize, usize)| found_view(b))),
{
    let ghost fv = found@.map_values(|b: (Option<String>, usize, usize)| found_view(b));
    let mut r: Vec<BinaryParagraph> = Vec::new();
    let mut i: usize = 0;
    while i < found.len()
        invariant
            i <= found.len(),
            2 * text@.len() <= u32::MAX,
            fv == found@.map_values(|b: (Option<String>, usize, usize)| found_view(b)),
            r.len() == i,
            paragraphs_view(r@) == paragraphs_at(text@, fv).take(i as int),
        decreases found.len() - i,
    {
        let (name, start, end) = &found[i];
        let range = text_range_to_lsp_range(text, *start, *end);
        let name = match name {
            Some(n) => Some(String::from_str(n.as_str())),
            None => None,
        };
        let ghost before = r@;
        r.push(BinaryParagraph { name, range });
        assert(fv[i as int] == found_view(found@[i as int]));
        assert(paragraphs_at(text@, fv)[i as int] == (fv[i as int].0, range));
        assert(r@[i as int]@ == (fv[i as int].0, range));
        assert(paragraphs_view(r@) =~= paragraphs_view(before).push((fv[i as int].0, range)));
        assert(paragraphs_at(text@, fv).take(i + 1) =~= paragraphs_at(text@, fv).take(i as int).push(
            paragraphs_at(text@, fv)[i as int],
        ));
        assert(paragraphs_view(r@) =~= paragraphs_at(text@, fv).take(i + 1));
        i += 1;
    }
    assert(paragraphs_at(text@, fv).take(found.len() as int) =~= paragraphs_at(text@, fv));
    r
}

/// The location of the binary package paragraph named `package_name` in
/// the control file `control_text`, whose URI is `control_uri`.
pub fn locate_binary_package(control_text: &str, control_uri: &str, package_name: &str) -> (r: Option<Location>)
    requires
        fits_text_size(control_text@),
        2 * control_text@.len() <= u32::MAX,
    ensures
        match r {
            Some(loc) => loc.uri@ == control_uri@ && binary_range(binaries_in(control_text@), package_name@)
                == Some(loc.range),
            None => binary_range(binaries_in(control_text@), package_name@).is_none(),
        },
{
    let binaries = binary_paragraphs(control_text);
    find_binary_package_location(&binaries, control_uri, package_name)
}

/// Go-to-definition finds the first package name (an `IDENT` token, kind 0,
/// directly under a `RELATION` node, kind 21) whose byte range holds the
/// cursor, both ends included: a cursor just after the last character of a
/// name still finds it.
pub proof fn lemma_package_token_found(tokens: Seq<(int, int, u16, Option<u16>, Seq<char>)>, off: int, i: int)
    requires
        0 <= i < tokens.len(),
        tokens[i].2 == 0u16,
        tokens[i].3 == Some(21u16),
        tokens[i].0 <= off <= tokens[i].1,
        forall|j: int|
            0 <= j < i ==> !((#[trigger] tokens[j]).2 == 0u16 && tokens[j].3 == Some(21u16) && tokens[j].0 <= off
                <= tokens[j].1),
    ensures
        package_token_at(tokens, off) == Some(tokens[i].4),
    decreases i,
{
    if i > 0 {
        assert(!(tokens[0].2 == 0u16 && tokens[0].3 == Some(21u16) && tokens[0].0 <= off <= tokens[0].1));
        let rest = tokens.drop_first();
        assert forall|j: int|
            0 <= j < i - 1 implies !((#[trigger] rest[j]).2 == 0u16 && rest[j].3 == Some(21u16) && rest[j].0
                <= off <= rest[j].1) by {
            assert(rest[j] == tokens[j + 1]);
        }
        lemma_package_token_found(rest, off, i - 1);
    }
}

/// Where no package name's range holds the cursor, nothing is found.
pub proof fn lemma_package_token_absent(tokens: Seq<(int, int, u16, Option<u16>, Seq<char>)>, off: int)
    requires
        forall|j: int|
            0 <= j < tokens.len() ==> !((#[trigger] tokens[j]).2 == 0u16 && tokens[j].3 == Some(21u16) && tokens[j].0
                <= off <= tokens[j].1),
    ensures
        package_token_at(tokens, off) is None,
    decreases tokens.len(),
{
    if tokens.len() > 0 {
        assert(!(tokens[0].2 == 0u16 && tokens[0].3 == Some(21u16) && tokens[0].0 <= off <= tokens[0].1));
        let rest = tokens.drop_first();
        assert forall|j: int|
            0 <= j < rest.len() implies !((#[trigger] rest[j]).2 == 0u16 && rest[j].3 == Some(21u16) && rest[j].0
                <= off <= rest[j].1) by {
            assert(rest[j] == tokens[j + 1]);
        }
        lemma_package_token_absent(rest, off);
    }
}

} // verus!
