//! Go-to-definition for names in `debian/tests/control`.

use vstd::prelude::*;
use crate::text::fits_text_size;
use debian_control::lossless::relations::Relations;
use vstd::utf8::{decode_utf8, encode_utf8, encode_utf8_decode_utf8, is_char_boundary};
use vstd::string::StringSliceAdditionalSpecFns;
use crate::lsp::opt_view;
use crate::position::byte_prefix;
use crate::text::{chars_of, concat, str_trim, trim};

verus! {

/// A character that separates test names: a space or a line feed.
pub open spec fn is_sep(c: char) -> bool {
    c == ' ' || c == '\n'
}

/// Index just past the last separator of `s`; 0 when there is none.
pub open spec fn after_last_sep(s: Seq<char>) -> int
    decreases s.len(),
{
    if s.len() == 0 {
        0
    } else if is_sep(s.last()) {
        s.len() as int
    } else {
        after_last_sep(s.drop_last())
    }
}

/// Index of the first separator of `s`, or `s.len()` when there is none.
pub open spec fn first_sep(s: Seq<char>) -> int
    decreases s.len(),
{
    if s.len() == 0 {
        0
    } else if is_sep(s[0]) {
        0
    } else {
        1 + first_sep(s.drop_first())
    }
}

pub proof fn lemma_after_last_sep(s: Seq<char>)
    ensures
        0 <= after_last_sep(s) <= s.len(),
    decreases s.len(),
{
    if s.len() > 0 && !is_sep(s.last()) {
        lemma_after_last_sep(s.drop_last());
    }
}

pub proof fn lemma_first_sep(s: Seq<char>)
    ensures
        0 <= first_sep(s) <= s.len(),
    decreases s.len(),
{
    if s.len() > 0 && !is_sep(s[0]) {
        lemma_first_sep(s.drop_first());
    }
}

/// The characters whose encoding follows the first `col` bytes of that of
/// `l`.
pub open spec fn byte_suffix(l: Seq<char>, col: int) -> Seq<char> {
    decode_utf8(encode_utf8(l).skip(col))
}

/// The test name under byte offset `off` of a `Tests:` value: the run of
/// characters between the separators around the cursor, trimmed. There is
/// none when the cursor sits on a separator or at the end of the value, or
/// when the run is blank.
pub open spec fn test_name_at(value: Seq<char>, off: int) -> Option<Seq<char>> {
    let before = byte_prefix(value, off);
    let after = byte_suffix(value, off);
    if after.len() == 0 || is_sep(after[0]) {
        None
    } else {
        let token = trim(before.skip(after_last_sep(before)) + after.take(first_sep(after)));
        if token.len() == 0 {
            None
        } else {
            Some(token)
        }
    }
}

/// Find the test name within a `Tests:` field value.
///
/// Scans left to find the start of the token and right to find its end,
/// so the full name is returned even when the cursor is in the middle of it.
/// Returns `None` when the cursor sits on whitespace between tokens.
pub fn find_test_name_at_offset(value: &str, offset_in_value: usize) -> (r: Option<String>)
    requires
        offset_in_value <= value.spec_bytes().len(),
        is_char_boundary(value.spec_bytes(), offset_in_value as int),
    ensures
        match r {
            Some(s) => test_name_at(value@, offset_in_value as int) == Some(s@),
            None => test_name_at(value@, offset_in_value as int).is_none(),
        },
{
    let (head, tail) = value.split_at(offset_in_value);
    proof {
        encode_utf8_decode_utf8(head@);
        encode_utf8_decode_utf8(tail@);
        assert(head.spec_bytes() =~= value.spec_bytes().take(offset_in_value as int));
        assert(tail.spec_bytes() =~= value.spec_bytes().skip(offset_in_value as int));
    }
    let hs = chars_of(head);
    let ts = chars_of(tail);
    if ts.len() == 0 || ts[0] == ' ' || ts[0] == '\n' {
        return None;
    }
    let mut start = hs.len();
    assert(head@.take(start as int) =~= head@);
    while start > 0 && hs[start - 1] != ' ' && hs[start - 1] != '\n'
        invariant
            start <= hs.len(),
            hs@ == head@,
            after_last_sep(head@) == after_last_sep(head@.take(start as int)),
        decreases start,
    {
        assert(head@.take(start as int).drop_last() =~= head@.take(start - 1));
        start -= 1;
    }
    let mut end: usize = 0;
    assert(tail@.skip(0) =~= tail@);
    while end < ts.len() && ts[end] != ' ' && ts[end] != '\n'
        invariant
            end <= ts.len(),
            ts@ == tail@,
            first_sep(tail@) == end + first_sep(tail@.skip(end as int)),
        decreases ts.len() - end,
    {
        assert(tail@.skip(end as int).drop_first() =~= tail@.skip(end + 1));
        end += 1;
    }
    let mut joined = String::from_str(head.substring_char(start, hs.len()));
    joined.append(tail.substring_char(0, end));
    assert(joined@ =~= head@.skip(after_last_sep(head@)) + tail@.take(first_sep(tail@)));
    let token = str_trim(joined.as_str());
    if token.unicode_len() == 0 {
        None
    } else {
        Some(String::from_str(token))
    }
}

} // verus!

verus! {

/// What `debian_control`'s relaxed relations parser finds in a field value:
/// for each relation of each entry, in order, the byte range of the
/// relation's node and its package name, if it has one.
pub uninterp spec fn relation_spans_of(value: Seq<char>) -> Seq<(int, int, Option<Seq<char>>)>;

/// A relation span as plain values.
pub open spec fn span_view(s: (usize, usize, Option<String>)) -> (int, int, Option<Seq<char>>) {
    (s.0 as int, s.1 as int, opt_view(s.2))
}

/// The models of a list of relation spans.
pub open spec fn spans_view(v: Seq<(usize, usize, Option<String>)>) -> Seq<(int, int, Option<Seq<char>>)> {
    v.map_values(|s: (usize, usize, Option<String>)| span_view(s))
}

/// `Relations::parse_relaxed(value, false)` from `debian_control`, each
/// relation of each entry given as the byte range of its syntax node and
/// `Relation::try_name`. The result is named, not described: it is what
/// the parser gives for `value`.
#[verifier::external_body]
fn relation_spans(value: &str) -> (r: Vec<(usize, usize, Option<String>)>)
    requires
        fits_text_size(value@),
    ensures
        spans_view(r@) == relation_spans_of(value@),
{
    let (relations, _errors) = Relations::parse_relaxed(value, false);
    let mut r = Vec::new();
    for entry in relations.entries() {
        for relation in entry.relations() {
            let range = relation.syntax().text_range();
            r.push((range.start().into(), range.end().into(), relation.try_name()));
        }
    }
    r
}

/// The name of the first span whose range holds `off` (its ends included);
/// none when no span holds it or the first that does has no name.
pub open spec fn covering_name(spans: Seq<(int, int, Option<Seq<char>>)>, off: int) -> Option<Seq<char>>
    decreases spans.len(),
{
    if spans.len() == 0 {
        None
    } else if spans[0].0 <= off <= spans[0].1 {
        spans[0].2
    } else {
        covering_name(spans.drop_first(), off)
    }
}

/// The package name of the first relation whose range holds the offset.
pub fn package_in_spans(spans: &Vec<(usize, usize, Option<String>)>, offset_in_value: usize) -> (r: Option<String>)
    ensures
        opt_view(r) == covering_name(spans_view(spans@), offset_in_value as int),
{
    let ghost sv = spans_view(spans@);
    let mut i: usize = 0;
    assert(sv.skip(0) =~= sv);
    while i < spans.len()
        invariant
            i <= spans.len(),
            sv == spans_view(spans@),
            covering_name(sv, offset_in_value as int) == covering_name(sv.skip(i as int), offset_in_value as int),
        decreases spans.len() - i,
    {
        let (start, end, name) = &spans[i];
        assert(sv.skip(i as int)[0] == span_view(spans@[i as int]));
        if *start <= offset_in_value && offset_in_value <= *end {
            return match name {
                Some(n) => Some(String::from_str(n.as_str())),
                None => None,
            };
        }
        assert(sv.skip(i as int).drop_first() =~= sv.skip(i + 1));
        i += 1;
    }
    None
}

/// Find the package name at the cursor position within a relationship field value.
///
/// Parses the full field value, then finds the relation whose range covers
/// the cursor byte offset.
pub fn find_package_at_offset(value: &str, offset_in_value: usize) -> (r: Option<String>)
    requires
        fits_text_size(value@),
    ensures
        opt_view(r) == covering_name(relation_spans_of(value@), offset_in_value as int),
{
    let spans = relation_spans(value);
    package_in_spans(&spans, offset_in_value)
}

} // verus!

verus! {

pub proof fn lemma_after_last_sep_tail(s: Seq<char>)
    ensures
        forall|j: int| after_last_sep(s) <= j < s.len() ==> !is_sep(#[trigger] s[j]),
    decreases s.len(),
{
    lemma_after_last_sep(s);
    if s.len() > 0 && !is_sep(s.last()) {
        lemma_after_last_sep_tail(s.drop_last());
        assert forall|j: int| after_last_sep(s) <= j < s.len() implies !is_sep(#[trigger] s[j]) by {
            if j < s.len() - 1 {
                assert(s[j] == s.drop_last()[j]);
            }
        }
    }
}

pub proof fn lemma_first_sep_head(s: Seq<char>)
    ensures
        forall|j: int| 0 <= j < first_sep(s) ==> !is_sep(#[trigger] s[j]),
    decreases s.len(),
{
    lemma_first_sep(s);
    if s.len() > 0 && !is_sep(s[0]) {
        lemma_first_sep_head(s.drop_first());
        assert forall|j: int| 0 <= j < first_sep(s) implies !is_sep(#[trigger] s[j]) by {
            if j > 0 {
                assert(s[j] == s.drop_first()[j - 1]);
            }
        }
    }
}

/// A test name found under the cursor is never empty and never holds a
/// space or a line feed.
pub proof fn lemma_test_name_has_no_separator(value: Seq<char>, off: int)
    ensures
        test_name_at(value, off) matches Some(t) ==> t.len() > 0 && forall|j: int|
            0 <= j < t.len() ==> !is_sep(#[trigger] t[j]),
{
    let before = byte_prefix(value, off);
    let after = byte_suffix(value, off);
    let x = before.skip(after_last_sep(before)) + after.take(first_sep(after));
    lemma_after_last_sep(before);
    lemma_first_sep(after);
    lemma_after_last_sep_tail(before);
    lemma_first_sep_head(after);
    assert forall|j: int| 0 <= j < x.len() implies !is_sep(#[trigger] x[j]) by {
        let a = before.len() - after_last_sep(before);
        if j < a {
            assert(x[j] == before[after_last_sep(before) + j]);
        } else {
            assert(x[j] == after[j - a]);
        }
    }
    crate::text::lemma_lead_ws(x);
    let ts = x.skip(crate::text::lead_ws(x));
    crate::text::lemma_trail_ws_start(ts);
    let t = trim(x);
    assert forall|j: int| 0 <= j < t.len() implies !is_sep(#[trigger] t[j]) by {
        assert(t[j] == ts[j]);
        assert(ts[j] == x[crate::text::lead_ws(x) + j]);
    }
}

} // verus!

verus! {

/// `root` joined with `name` as `Path::join` does: an absolute `name`
/// replaces `root`.
pub open spec fn path_join(root: Seq<char>, name: Seq<char>) -> Seq<char> {
    if name.len() > 0 && name[0] == '/' {
        name
    } else {
        crate::debhelper::links::join_path(root, name)
    }
}

/// The directory holding the test scripts: the `Tests-Directory` of the
/// paragraph, trimmed and taken from the source root, or `debian/tests`.
pub open spec fn tests_directory_spec(root: Seq<char>, field: Option<Seq<char>>) -> Seq<char> {
    match field {
        Some(v) => path_join(root, trim(v)),
        None => path_join(root, "debian/tests"@),
    }
}

/// `root` joined with `name` as `Path::join` does.
pub fn join_path_name(root: &str, name: &str) -> (r: String)
    ensures
        r@ == path_join(root@, name@),
{
    if name.unicode_len() > 0 && name.get_char(0) == '/' {
        String::from_str(name)
    } else {
        crate::debhelper::links::join(root, name)
    }
}

/// The directory that holds the test scripts of a paragraph whose
/// `Tests-Directory` field, if any, is `field`, in the source tree at `root`.
pub fn tests_directory(root: &str, field: Option<&str>) -> (r: String)
    ensures
        r@ == tests_directory_spec(root@, opt_str(field)),
{
    match field {
        Some(v) => join_path_name(root, str_trim(v)),
        None => join_path_name(root, "debian/tests"),
    }
}

/// The view of an optional string slice.
pub open spec fn opt_str(o: Option<&str>) -> Option<Seq<char>> {
    match o {
        Some(s) => Some(s@),
        None => None,
    }
}

} // verus!
