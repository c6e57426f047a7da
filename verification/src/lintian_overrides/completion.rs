//! Completion in lintian-overrides files.
//!
//! Override grammar:
//!   `[[<package>][ <archlist>][ <type>]: ]<lintian-tag>[[*]<context>[*]]`

use vstd::prelude::*;
use crate::text::fits_text_size;
use lintian_overrides::AstNode;
use vstd::string::StringSliceAdditionalSpecFns;
use vstd::utf8::{encode_utf8, is_char_boundary};
use crate::lsp::{CompletionItem, CompletionItemKind, ItemModel, Position, items_view};
use crate::position::{byte_offset_at, byte_prefix, offset_at, prefix_to};
use crate::text::{chars_of, line_at, nth_line, fold, fold_char, is_prefix_ignore_ascii_case, lead_run, lead_ws_from, lemma_filter_map_push, lemma_take_succ, lemma_trail_ws_start, lemma_word_start, starts_with_lowered, str_starts_with, str_starts_with_ignore_ascii_case, trail_ws_start_in, trim_end, trim_start, trim_start_char, word_start, word_start_in};

verus! {

/// The partial word immediately before the cursor: what follows the last
/// whitespace character.
pub open spec fn pending_word_spec(s: Seq<char>) -> Seq<char> {
    s.skip(word_start(s))
}

/// `pending_word` without the leading `[` and then `!` that precede an
/// architecture inside a bracket list.
pub open spec fn pending_arch_spec(s: Seq<char>) -> Seq<char> {
    let w = pending_word_spec(s);
    let w1 = w.skip(lead_run(w, '['));
    w1.skip(lead_run(w1, '!'))
}

/// The text before the cursor split into the already-committed text and the
/// word being typed, whitespace around both trimmed.
pub open spec fn split_committed_spec(s: Seq<char>) -> (Seq<char>, Seq<char>) {
    let t = trim_start(s);
    let w = word_start(t);
    if w == 0 {
        (seq![], t)
    } else {
        (trim_end(t.take(w - 1)), t.skip(w))
    }
}

/// The partial word immediately before the cursor. Used only to filter
/// candidates, never to derive structure.
pub fn pending_word(before_cursor: &str) -> (r: &str)
    ensures
        r@ == pending_word_spec(before_cursor@),
{
    let cs = chars_of(before_cursor);
    assert(cs@.take(cs.len() as int) =~= cs@);
    let k = word_start_in(&cs, cs.len());
    proof {
        lemma_word_start(before_cursor@);
    }
    before_cursor.substring_char(k, cs.len())
}

/// Like [`pending_word`] but strips the leading `[` / `!` that precede an
/// architecture inside a bracket list.
pub fn pending_arch(before_cursor: &str) -> (r: &str)
    ensures
        r@ == pending_arch_spec(before_cursor@),
{
    trim_start_char(trim_start_char(pending_word(before_cursor), '['), '!')
}

/// Split `before_cursor` into the already-committed text and the word currently
/// being typed.
pub fn split_committed(before_cursor: &str) -> (r: (&str, &str))
    ensures
        (r.0@, r.1@) == split_committed_spec(before_cursor@),
{
    let cs = chars_of(before_cursor);
    let n = cs.len();
    let a = lead_ws_from(&cs, 0);
    assert(cs@.skip(0) =~= cs@);
    let ghost t = trim_start(before_cursor@);
    let tail = chars_of(before_cursor.substring_char(a, n));
    assert(tail@ =~= t);
    assert(tail@.take(tail.len() as int) =~= tail@);
    let w = word_start_in(&tail, tail.len());
    proof {
        lemma_word_start(t);
    }
    if w == 0 {
        (before_cursor.substring_char(0, 0), before_cursor.substring_char(a, n))
    } else {
        let e = trail_ws_start_in(&tail, w - 1);
        proof {
            lemma_trail_ws_start(t.take(w - 1));
        }
        assert(trim_end(t.take(w - 1)) =~= before_cursor@.subrange(a as int, a + e));
        assert(t.skip(w as int) =~= before_cursor@.subrange(a + w, n as int));
        (before_cursor.substring_char(a, a + e), before_cursor.substring_char(a + w, n))
    }
}

/// Keeps the tags that start with the prefix, ASCII case ignored.
pub open spec fn tag_filter(prefix: Seq<char>) -> spec_fn((String, String)) -> bool {
    |t: (String, String)| is_prefix_ignore_ascii_case(prefix, t.0@)
}

/// The completion item of a tag and its description.
pub open spec fn tag_item(t: (String, String)) -> ItemModel {
    (
        t.0@,
        Some(CompletionItemKind::Value),
        if t.1@.len() == 0 {
            None
        } else {
            Some(t.1@)
        },
        None,
    )
}

/// The tag items for `prefix`, in the order of `tags`.
pub open spec fn tag_items_spec(prefix: Seq<char>, tags: Seq<(String, String)>) -> Seq<ItemModel> {
    tags.filter(tag_filter(prefix)).map_values(|t: (String, String)| tag_item(t))
}

/// Keeps the names that start with the prefix, ASCII case ignored.
pub open spec fn name_filter(prefix: Seq<char>) -> spec_fn(String) -> bool {
    |n: String| is_prefix_ignore_ascii_case(prefix, n@)
}

/// The completion item of a package name.
pub open spec fn package_item(n: String) -> ItemModel {
    (n@, Some(CompletionItemKind::Module), Some("Package"@), None)
}

/// The package items for `prefix`, in the order of `packages`.
pub open spec fn package_items_spec(prefix: Seq<char>, packages: Seq<String>) -> Seq<ItemModel> {
    packages.filter(name_filter(prefix)).map_values(|n: String| package_item(n))
}

/// Keeps the architectures that start with the prefix, case included.
pub open spec fn arch_filter(prefix: Seq<char>) -> spec_fn(String) -> bool {
    |a: String| prefix.is_prefix_of(a@)
}

/// The completion item of an architecture.
pub open spec fn arch_item(a: String) -> ItemModel {
    (a@, Some(CompletionItemKind::Value), None, None)
}

/// The architecture items for `prefix`, in the order of `architectures`.
pub open spec fn arch_items_spec(architectures: Seq<String>, prefix: Seq<char>) -> Seq<ItemModel> {
    architectures.filter(arch_filter(prefix)).map_values(|a: String| arch_item(a))
}

/// The package-type keywords, in the order lintian lists them.
pub open spec fn package_type_names() -> Seq<Seq<char>> {
    seq!["source"@, "binary"@, "udeb"@]
}

/// Keeps the keywords that start with the lower-cased prefix.
pub open spec fn type_filter(prefix: Seq<char>) -> spec_fn(Seq<char>) -> bool {
    |t: Seq<char>| starts_with_lowered(t, prefix)
}

/// The completion item of a package-type keyword.
pub open spec fn type_item(t: Seq<char>) -> ItemModel {
    (t, Some(CompletionItemKind::Keyword), Some("Package type"@), None)
}

/// The package-type items for `prefix`.
pub open spec fn type_items_spec(prefix: Seq<char>) -> Seq<ItemModel> {
    package_type_names().filter(type_filter(prefix)).map_values(|t: Seq<char>| type_item(t))
}

/// The completion item of a punctuation mark.
pub open spec fn punct_spec(label: Seq<char>, detail: Seq<char>) -> ItemModel {
    (label, Some(CompletionItemKind::Operator), Some(detail), Some(label))
}

/// The package-type keywords of lintian overrides, read from
/// `lintian_overrides::PACKAGE_TYPES`, which lists `source`, `binary` and
/// `udeb` in that order.
#[verifier::external_body]
fn package_types() -> (r: Vec<&'static str>)
    ensures
        r@.map_values(|s: &'static str| s@) == package_type_names(),
{
    lintian_overrides::PACKAGE_TYPES.to_vec()
}

/// Build tag items filtered by `prefix`.
pub fn tag_items(prefix: &str, tags: &[(String, String)]) -> (r: Vec<CompletionItem>)
    ensures
        items_view(r@) == tag_items_spec(prefix@, tags@),
{
    let mut out: Vec<CompletionItem> = Vec::new();
    let mut i: usize = 0;
    while i < tags.len()
        invariant
            i <= tags.len(),
            items_view(out@) == tag_items_spec(prefix@, tags@.take(i as int)),
        decreases tags.len() - i,
    {
        proof {
            lemma_take_succ(tags@, i as int);
            lemma_filter_map_push(
                tags@.take(i as int),
                tags@[i as int],
                tag_filter(prefix@),
                |t: (String, String)| tag_item(t),
            );
        }
        let tag = &tags[i].0;
        let description = &tags[i].1;
        if str_starts_with_ignore_ascii_case(tag.as_str(), prefix) {
            let detail = if description.as_str().is_empty() {
                None
            } else {
                Some(description.clone())
            };
            let item = CompletionItem {
                label: tag.clone(),
                kind: Some(CompletionItemKind::Value),
                detail,
                insert_text: None,
            };
            assert(item@ == tag_item(tags@[i as int]));
            out.push(item);
            assert(items_view(out@) =~= items_view(out@.drop_last()).push(item@));
        }
        i += 1;
    }
    assert(tags@.take(tags.len() as int) =~= tags@);
    out
}

/// Build package-name items (source and binary packages from `debian/control`)
/// filtered by `prefix`.
pub fn package_items(packages: &[String], prefix: &str) -> (r: Vec<CompletionItem>)
    ensures
        items_view(r@) == package_items_spec(prefix@, packages@),
{
    let mut out: Vec<CompletionItem> = Vec::new();
    let mut i: usize = 0;
    while i < packages.len()
        invariant
            i <= packages.len(),
            items_view(out@) == package_items_spec(prefix@, packages@.take(i as int)),
        decreases packages.len() - i,
    {
        proof {
            lemma_take_succ(packages@, i as int);
            lemma_filter_map_push(
                packages@.take(i as int),
                packages@[i as int],
                name_filter(prefix@),
                |n: String| package_item(n),
            );
        }
        let name = &packages[i];
        if str_starts_with_ignore_ascii_case(name.as_str(), prefix) {
            let item = CompletionItem {
                label: name.clone(),
                kind: Some(CompletionItemKind::Module),
                detail: Some(String::from_str("Package")),
                insert_text: None,
            };
            assert(item@ == package_item(packages@[i as int]));
            out.push(item);
            assert(items_view(out@) =~= items_view(out@.drop_last()).push(item@));
        }
        i += 1;
    }
    assert(packages@.take(packages.len() as int) =~= packages@);
    out
}

/// Build architecture items filtered by `prefix`.
pub fn arch_items(architectures: &[String], prefix: &str) -> (r: Vec<CompletionItem>)
    ensures
        items_view(r@) == arch_items_spec(architectures@, prefix@),
{
    let mut out: Vec<CompletionItem> = Vec::new();
    let mut i: usize = 0;
    while i < architectures.len()
        invariant
            i <= architectures.len(),
            items_view(out@) == arch_items_spec(architectures@.take(i as int), prefix@),
        decreases architectures.len() - i,
    {
        proof {
            lemma_take_succ(architectures@, i as int);
            lemma_filter_map_push(
                architectures@.take(i as int),
                architectures@[i as int],
                arch_filter(prefix@),
                |a: String| arch_item(a),
            );
        }
        let arch = &architectures[i];
        if str_starts_with(arch.as_str(), prefix) {
            let item = CompletionItem {
                label: arch.clone(),
                kind: Some(CompletionItemKind::Value),
                detail: None,
                insert_text: None,
            };
            out.push(item);
            assert(items_view(out@) =~= items_view(out@.drop_last()).push(item@));
        }
        i += 1;
    }
    assert(architectures@.take(architectures.len() as int) =~= architectures@);
    out
}

/// Build type-keyword items (`source`, `binary`, `udeb`) filtered by `prefix`.
pub fn type_items(prefix: &str) -> (r: Vec<CompletionItem>)
    ensures
        items_view(r@) == type_items_spec(prefix@),
{
    let types = package_types();
    let ghost names = types@.map_values(|s: &'static str| s@);
    let p = chars_of(prefix);
    let mut out: Vec<CompletionItem> = Vec::new();
    let mut i: usize = 0;
    while i < types.len()
        invariant
            i <= types.len(),
            names == types@.map_values(|s: &'static str| s@),
            names == package_type_names(),
            p@ == prefix@,
            items_view(out@) == names.take(i as int).filter(type_filter(prefix@)).map_values(
                |t: Seq<char>| type_item(t),
            ),
        decreases types.len() - i,
    {
        proof {
            lemma_take_succ(names, i as int);
            lemma_filter_map_push(
                names.take(i as int),
                names[i as int],
                type_filter(prefix@),
                |t: Seq<char>| type_item(t),
            );
        }
        let t = chars_of(types[i]);
        let mut ok = p.len() <= t.len();
        let mut j: usize = 0;
        while ok && j < p.len()
            invariant
                ok ==> p.len() <= t.len(),
                j <= p.len(),
                p@ == prefix@,
                t@ == names[i as int],
                ok ==> forall|k: int| 0 <= k < j ==> (t@[k] as u32) as int == fold(#[trigger] p@[k]),
                !ok ==> !starts_with_lowered(t@, p@),
            decreases p.len() - j,
        {
            let c = t[j];
            let d = fold_char(p[j]);
            if c as u32 != d {
                ok = false;
            }
            assert(ok ==> (t@[j as int] as u32) as int == fold(p@[j as int]));
            j += 1;
        }
        if ok {
            let item = CompletionItem {
                label: String::from_str(types[i]),
                kind: Some(CompletionItemKind::Keyword),
                detail: Some(String::from_str("Package type")),
                insert_text: None,
            };
            out.push(item);
            assert(items_view(out@) =~= items_view(out@.drop_last()).push(item@));
        }
        i += 1;
    }
    assert(names.take(types.len() as int) =~= names);
    out
}

/// Build a punctuation completion item (`[`).
pub fn punct(label: &str, detail: &str) -> (r: CompletionItem)
    ensures
        r@ == punct_spec(label@, detail@),
{
    CompletionItem {
        label: String::from_str(label),
        kind: Some(CompletionItemKind::Operator),
        detail: Some(String::from_str(detail)),
        insert_text: Some(String::from_str(label)),
    }
}

/// What the completion logic reads of a package spec: where it ends, whether
/// the offset lies inside its `[...]` architecture list, whether it has one,
/// and where its package-type keyword starts.
#[derive(Clone, Copy, Debug, PartialEq, Eq, Structural)]
pub struct SpecFacts {
    pub end: u32,
    pub arch_list_contains_offset: bool,
    pub has_arch_list: bool,
    pub type_start: Option<u32>,
}

/// What the completion logic reads of the override line at an offset:
/// whether it is a comment, its package spec, and where its tag ends.
#[derive(Clone, Copy, Debug, PartialEq, Eq, Structural)]
pub struct LineFacts {
    pub is_comment: bool,
    pub spec: Option<SpecFacts>,
    pub tag_end: Option<u32>,
}

/// The facts that `lintian_overrides` reports of the line of `text` at
/// byte offset `offset`.
pub uninterp spec fn override_line_facts(text: Seq<char>, offset: u32) -> Option<LineFacts>;

/// Parses `text` with `lintian_overrides::LintianOverrides::parse` and reads,
/// of the line that `LintianOverrides::line_at_offset` finds at `offset`,
/// `OverrideLine::is_comment`, the end of `OverrideLine::package_spec`,
/// `PackageSpec::arch_list_contains_offset` at `offset`,
/// `PackageSpec::has_arch_list`, the start of
/// `PackageSpec::package_type_range` and the end of `OverrideLine::tag`.
/// The contract claims only that the result is a function of `text` and
/// `offset`; what the parser makes of the text is not stated.
#[verifier::external_body]
fn line_facts(text: &str, offset: u32) -> (r: Option<LineFacts>)
    requires
        fits_text_size(text@),
    ensures
        r == override_line_facts(text@, offset),
{
    let off = rowan::TextSize::from(offset);
    let tree = lintian_overrides::LintianOverrides::parse(text).tree();
    let line = tree.line_at_offset(off)?;
    let spec = match line.package_spec() {
        Some(s) => Some(SpecFacts {
            end: s.syntax().text_range().end().into(),
            arch_list_contains_offset: s.arch_list_contains_offset(off),
            has_arch_list: s.has_arch_list(),
            type_start: s.package_type_range().map(|r| r.start().into()),
        }),
        None => None,
    };
    let tag_end = line.tag().map(|t| t.text_range().end().into());
    Some(LineFacts { is_comment: line.is_comment(), spec, tag_end })
}

/// Whether `[` can be inserted at `offset` without reordering components
/// already committed in the spec: no arch-list yet, and not past a type
/// keyword that's already there (archlist must precede type).
pub open spec fn bracket_allowed_spec(spec: SpecFacts, offset: u32) -> bool {
    &&& !spec.has_arch_list
    &&& match spec.type_start {
        Some(s) => offset <= s,
        None => true,
    }
}

/// Completions inside a package spec.
pub open spec fn spec_region_spec(
    spec: SpecFacts,
    offset: u32,
    before_cursor: Seq<char>,
    architectures: Seq<String>,
) -> Seq<ItemModel> {
    if spec.arch_list_contains_offset {
        arch_items_spec(architectures, pending_arch_spec(before_cursor))
    } else {
        let pending = pending_word_spec(before_cursor);
        let bracket = if pending.len() == 0 && bracket_allowed_spec(spec, offset) {
            seq![punct_spec("["@, "Architecture restriction list"@)]
        } else {
            seq![]
        };
        bracket + type_items_spec(pending)
    }
}

/// Completions after the spec colon.
pub open spec fn tag_region_spec(
    tag_end: Option<u32>,
    offset: u32,
    before_cursor: Seq<char>,
    tags: Seq<(String, String)>,
) -> Seq<ItemModel> {
    match tag_end {
        Some(e) => if offset <= e {
            tag_items_spec(pending_word_spec(before_cursor), tags)
        } else {
            seq![]
        },
        None => tag_items_spec(pending_word_spec(before_cursor), tags),
    }
}

/// The completions for the override line described by `facts`, the cursor
/// at byte `offset` with `before_cursor` the text of its line before it.
pub open spec fn completions_spec(
    facts: Option<LineFacts>,
    offset: u32,
    before_cursor: Seq<char>,
    tags: Seq<(String, String)>,
    packages: Seq<String>,
    architectures: Seq<String>,
) -> Seq<ItemModel> {
    match facts {
        None => seq![],
        Some(line) => if line.is_comment {
            seq![]
        } else {
            match line.spec {
                None => {
                    let (committed, pending) = split_committed_spec(before_cursor);
                    if committed.len() == 0 {
                        package_items_spec(pending, packages) + tag_items_spec(pending, tags)
                    } else {
                        seq![]
                    }
                },
                Some(spec) => if offset < spec.end {
                    spec_region_spec(spec, offset, before_cursor, architectures)
                } else {
                    tag_region_spec(line.tag_end, offset, before_cursor, tags)
                },
            }
        },
    }
}

/// The text of line `position.line` of `text` before the cursor, the column
/// counted in bytes and clamped to the line.
pub open spec fn before_cursor_spec(text: Seq<char>, position: Position) -> Seq<char> {
    let line = nth_line(text, position.line as int);
    let len = encode_utf8(line).len() as int;
    byte_prefix(line, if position.character < len { position.character as int } else { len })
}

/// The column of `position` falls on a character boundary of its line.
pub open spec fn column_on_boundary(text: Seq<char>, position: Position) -> bool {
    let line = nth_line(text, position.line as int);
    let len = encode_utf8(line).len() as int;
    is_char_boundary(encode_utf8(line), if position.character < len { position.character as int } else { len })
}

/// The byte offset that the lintian-overrides parser is asked about.
pub open spec fn cursor_offset(text: Seq<char>, position: Position) -> u32 {
    byte_offset_at(encode_utf8(text), position.line as int, position.character as int) as u32
}

/// Completions after the spec colon: the lintian tag, then free-form context.
fn tag_region_completions(
    tag_end: Option<u32>,
    offset: u32,
    before_cursor: &str,
    tags: &[(String, String)],
) -> (r: Vec<CompletionItem>)
    ensures
        items_view(r@) == tag_region_spec(tag_end, offset, before_cursor@, tags@),
{
    match tag_end {
        Some(e) => if offset <= e {
            tag_items(pending_word(before_cursor), tags)
        } else {
            Vec::new()
        },
        None => tag_items(pending_word(before_cursor), tags),
    }
}

/// Completions inside a package spec: architecture names within the bracket
/// list, or the opening `[` / type keywords elsewhere.
fn spec_region_completions(
    spec: SpecFacts,
    offset: u32,
    before_cursor: &str,
    architectures: &[String],
) -> (r: Vec<CompletionItem>)
    ensures
        items_view(r@) == spec_region_spec(spec, offset, before_cursor@, architectures@),
{
    if spec.arch_list_contains_offset {
        return arch_items(architectures, pending_arch(before_cursor));
    }
    let pending = pending_word(before_cursor);
    let mut out: Vec<CompletionItem> = Vec::new();
    if pending.is_empty() && bracket_allowed(spec, offset) {
        out.push(punct("[", "Architecture restriction list"));
    }
    let mut types = type_items(pending);
    let ghost first = items_view(out@);
    out.append(&mut types);
    assert(items_view(out@) =~= first + type_items_spec(pending@));
    out
}

/// Whether `[` can be inserted at `offset`.
fn bracket_allowed(spec: SpecFacts, offset: u32) -> (r: bool)
    ensures
        r == bracket_allowed_spec(spec, offset),
{
    if spec.has_arch_list {
        return false;
    }
    match spec.type_start {
        Some(s) => offset <= s,
        None => true,
    }
}

/// The completions for an override line as the parser describes it.
pub fn completions_for_line(
    facts: Option<LineFacts>,
    offset: u32,
    before_cursor: &str,
    tags: &[(String, String)],
    packages: &[String],
    architectures: &[String],
) -> (r: Vec<CompletionItem>)
    ensures
        items_view(r@) == completions_spec(
            facts,
            offset,
            before_cursor@,
            tags@,
            packages@,
            architectures@,
        ),
{
    let line = match facts {
        Some(line) => line,
        None => return Vec::new(),
    };
    if line.is_comment {
        return Vec::new();
    }
    match line.spec {
        None => {
            let (committed, pending) = split_committed(before_cursor);
            if committed.is_empty() {
                let mut out = package_items(packages, pending);
                let mut more = tag_items(pending, tags);
                let ghost first = items_view(out@);
                out.append(&mut more);
                assert(items_view(out@) =~= first + tag_items_spec(pending@, tags@));
                out
            } else {
                Vec::new()
            }
        },
        Some(spec) => if offset < spec.end {
            spec_region_completions(spec, offset, before_cursor, architectures)
        } else {
            tag_region_completions(line.tag_end, offset, before_cursor, tags)
        },
    }
}

/// Get completion items for a lintian-overrides file.
pub fn get_completions(
    text: &str,
    position: Position,
    tags: &[(String, String)],
    packages: &[String],
    architectures: &[String],
) -> (r: Vec<CompletionItem>)
    requires
        fits_text_size(text@),
        text.spec_bytes().len() + position.character <= usize::MAX,
        column_on_boundary(text@, position),
    ensures
        items_view(r@) == completions_spec(
            override_line_facts(text@, cursor_offset(text@, position)),
            cursor_offset(text@, position),
            before_cursor_spec(text@, position),
            tags@,
            packages@,
            architectures@,
        ),
{
    let current_line = line_at(text, position.line as usize);
    let len = current_line.as_bytes().len();
    let col = if (position.character as usize) < len {
        position.character as usize
    } else {
        len
    };
    let before_cursor = prefix_to(current_line, col);
    let offset = offset_at(text, position) as u32;
    let facts = line_facts(text, offset);
    completions_for_line(facts, offset, before_cursor, tags, packages, architectures)
}

/// The word being typed starts after the last whitespace: before it lies
/// `head`, which is empty or ends in whitespace, and the word has none.
proof fn lemma_word_start_after(head: Seq<char>, t: Seq<char>)
    requires
        head.len() == 0 || crate::text::is_ws(head.last()),
        forall|i: int| 0 <= i < t.len() ==> !crate::text::is_ws(#[trigger] t[i]),
    ensures
        word_start(head + t) == head.len(),
    decreases t.len(),
{
    if t.len() == 0 {
        assert(head + t =~= head);
        if head.len() > 0 {
            assert((head + t).last() == head.last());
        }
    } else {
        assert((head + t).last() == t[t.len() - 1]);
        assert((head + t).drop_last() =~= head + t.drop_last());
        lemma_word_start_after(head, t.drop_last());
    }
}

/// Inside a bracketed architecture list the architectures offered are, in
/// their order, exactly those that start with the word being typed, an
/// opening `[` and a negating `!` left out of it: after `[!ar` or `!ar`
/// the names offered are those after `[ar` or `ar`, such as `arm64` and
/// `armhf`.
pub proof fn lemma_arch_list_completion(
    spec: SpecFacts,
    offset: u32,
    head: Seq<char>,
    mark: Seq<char>,
    word: Seq<char>,
    architectures: Seq<String>,
)
    requires
        spec.arch_list_contains_offset,
        head.len() == 0 || crate::text::is_ws(head.last()),
        mark == Seq::<char>::empty() || mark == seq!['['] || mark == seq!['!'] || mark == seq!['[', '!'],
        forall|i: int| 0 <= i < word.len() ==> !crate::text::is_ws(#[trigger] word[i]),
        word.len() == 0 || (word[0] != '[' && word[0] != '!'),
    ensures
        spec_region_spec(spec, offset, head + mark + word, architectures) == architectures.filter(
            |a: String| word.is_prefix_of(a@),
        ).map_values(|a: String| (a@, Some(CompletionItemKind::Value), None::<Seq<char>>, None::<Seq<char>>)),
{
    let t = mark + word;
    assert forall|i: int| 0 <= i < t.len() implies !crate::text::is_ws(#[trigger] t[i]) by {
        if i >= mark.len() {
            assert(t[i] == word[i - mark.len()]);
        } else {
            assert(t[i] == mark[i]);
        }
    }
    assert(head + mark + word =~= head + t);
    lemma_word_start_after(head, t);
    assert((head + t).skip(head.len() as int) =~= t);
    let w1 = t.skip(lead_run(t, '['));
    reveal_with_fuel(lead_run, 3);
    if mark.len() == 0 {
        assert(t =~= word);
        assert(w1 =~= word);
    } else if mark == seq!['['] {
        assert(t.drop_first() =~= word);
        assert(w1 =~= word);
    } else if mark == seq!['!'] {
        assert(w1 =~= t);
        assert(t.drop_first() =~= word);
    } else {
        assert(t.drop_first() =~= seq!['!'] + word);
        assert(w1 =~= seq!['!'] + word);
        assert((seq!['!'] + word).drop_first() =~= word);
    }
    assert(pending_arch_spec(head + t) =~= word);
    assert(arch_filter(word) =~= (|a: String| word.is_prefix_of(a@)));
    assert((|a: String| arch_item(a)) =~= (|a: String| (a@, Some(CompletionItemKind::Value), None::<Seq<char>>, None::<Seq<char>>)));
}

} // verus!
