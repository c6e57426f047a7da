//! The code actions offered for a document: field-casing fixes in control
//! and copyright files (with the single `source.fixAll` action when the
//! client asks for it), "Mark for upload" on `UNRELEASED` changelog
//! entries, and the filtering by the kinds the client asked for.

use vstd::prelude::*;
use vstd::utf8::encode_utf8;
use debian_control::lossless::Control;
use crate::actions::{
    CodeAction, CodeActionOrCommand, EditModel, TextEdit, WorkspaceEdit, action_matches_requested_kinds,
    action_wanted, all_edits, build_fix_all_action, edits_view, is_fix_all, is_upload_action,
    mark_for_upload_actions, matches_any, opt_view_kind, source_fix_all, action_edits, uri_edits,
    wants_fix_all, fix_all_wanted,
};
use crate::file_type::FileType;
use crate::lsp::{CodeModel, Diagnostic, NumberOrString, Range, opt_code};
use crate::position::{
    TextRange, lemma_column_chars, lemma_line_start, position_at, position_index, position_to_index,
    text_range_to_lsp_range,
};
use crate::templates::fields::{FieldInfo, names_of};
use crate::text::{chars_of, concat, fits_text_size, str_eq};
use crate::workspace::{
    CasingModel, FieldCasingIssue, casing_issues, casing_view, centry_view, changelog_entries_in_range_of,
    copyright_entries_of, copyright_field_casing_issues, field_casing_issues, infos_view, target_distribution_spec,
    unreleased_entries_in_range, unreleased_infos,
};

verus! {

/// What `debian_control` finds in a control file: the entries of all its
/// paragraphs, in order, each as its byte range, its field name if any,
/// and the byte range of that name if any.
pub uninterp spec fn control_entries_of(text: Seq<char>) -> Seq<((int, int), Option<Seq<char>>, Option<(int, int)>)>;

/// `Control::parse(text).tree()` from `debian_control`, the entries of each
/// of `as_deb822().paragraphs()`, each given as `Entry::text_range`,
/// `Entry::key` and `Entry::key_range`. The result is named, not described:
/// it is what the parser gives for `text`. Offsets are `rowan::TextSize`
/// values, so the text must fit one.
#[verifier::external_body]
fn control_entries(text: &str) -> (r: Vec<((usize, usize), Option<String>, Option<(usize, usize)>)>)
    requires
        fits_text_size(text@),
    ensures
        r@.map_values(|e: ((usize, usize), Option<String>, Option<(usize, usize)>)| centry_view(e))
            == control_entries_of(text@),
{
    let control = Control::parse(text).tree();
    let to = |r: rowan::TextRange| (r.start().into(), r.end().into());
    let mut r = Vec::new();
    for p in control.as_deb822().paragraphs() {
        for e in p.entries() {
            r.push((to(e.text_range()), e.key(), e.key_range().map(to)));
        }
    }
    r
}

/// The byte offset of the character index `k` of `text`.
pub open spec fn byte_offset_of(text: Seq<char>, k: int) -> int {
    encode_utf8(text.take(k)).len() as int
}

/// The byte range of an LSP range of `text`: none when a position names a
/// line the text does not have, or the end comes before the start.
pub open spec fn lsp_text_range(text: Seq<char>, range: Range) -> Option<TextRange> {
    match (position_index(text, range.start), position_index(text, range.end)) {
        (Some(a), Some(b)) => if a <= b {
            Some(
                TextRange {
                    start: byte_offset_of(text, a) as usize,
                    end: byte_offset_of(text, b) as usize,
                },
            )
        } else {
            None
        },
        _ => None,
    }
}

/// The encoding of two strings one after the other is the two encodings.
pub proof fn lemma_encode_utf8_concat(a: Seq<char>, b: Seq<char>)
    ensures
        encode_utf8(a + b) == encode_utf8(a) + encode_utf8(b),
    decreases a.len(),
{
    if a.len() == 0 {
        assert(a + b =~= b);
        assert(encode_utf8(a) + encode_utf8(b) =~= encode_utf8(b));
    } else {
        assert((a + b).drop_first() =~= a.drop_first() + b);
        lemma_encode_utf8_concat(a.drop_first(), b);
        assert(encode_utf8(a + b) =~= encode_utf8(a) + encode_utf8(b));
    }
}

/// A longer prefix has a longer encoding, and none is longer than the text.
pub proof fn lemma_byte_offset_monotone(text: Seq<char>, a: int, b: int)
    requires
        0 <= a <= b <= text.len(),
    ensures
        byte_offset_of(text, a) <= byte_offset_of(text, b) <= encode_utf8(text).len(),
{
    lemma_encode_utf8_concat(text.take(a), text.subrange(a, b));
    assert(text.take(a) + text.subrange(a, b) =~= text.take(b));
    lemma_encode_utf8_concat(text.take(b), text.skip(b));
    assert(text.take(b) + text.skip(b) =~= text);
}

/// The position of an LSP position, when its line exists, lies in `s`.
proof fn lemma_position_in_text(s: Seq<char>, p: crate::lsp::Position)
    ensures
        position_index(s, p) matches Some(k) ==> 0 <= k <= s.len(),
{
    lemma_line_start(s, p.line as nat);
    if let Some(k) = crate::position::line_start(s, p.line as nat) {
        lemma_column_chars(s.skip(k), p.character as int);
    }
}

/// The byte offset of the character index `k` of `text`.
fn byte_offset(text: &str, k: usize) -> (r: usize)
    requires
        k <= text@.len(),
    ensures
        r == byte_offset_of(text@, k as int),
{
    let prefix = text.substring_char(0, k);
    assert(prefix@ =~= text@.take(k as int));
    prefix.as_bytes().len()
}

/// The byte range of an LSP range of `text`.
pub fn lsp_range_to_text_range(text: &str, range: Range) -> (r: Option<TextRange>)
    requires
        fits_text_size(text@),
    ensures
        r == lsp_text_range(text@, range),
        r matches Some(tr) ==> tr.start <= tr.end <= encode_utf8(text@).len(),
{
    let cs = chars_of(text);
    let a = position_to_index(&cs, range.start);
    let b = position_to_index(&cs, range.end);
    proof {
        lemma_position_in_text(text@, range.start);
        lemma_position_in_text(text@, range.end);
    }
    match (a, b) {
        (Some(a), Some(b)) => {
            if a <= b {
                proof {
                    lemma_byte_offset_monotone(text@, a as int, b as int);
                }
                Some(TextRange { start: byte_offset(text, a), end: byte_offset(text, b) })
            } else {
                None
            }
        },
        _ => None,
    }
}

/// The LSP range of the field name of a casing issue in `text`.
pub open spec fn casing_range(text: Seq<char>, issue: CasingModel) -> Range {
    Range { start: position_at(text, issue.2.0), end: position_at(text, issue.2.1) }
}

/// The edit that fixes a casing issue: the standard name over the written one.
pub open spec fn casing_edit(text: Seq<char>, issue: CasingModel) -> EditModel {
    (casing_range(text, issue), issue.1)
}

/// The title of the action that fixes a casing issue.
pub open spec fn casing_title(issue: CasingModel) -> Seq<char> {
    "Fix field casing: "@ + issue.0 + " -> "@ + issue.1
}

/// `action` fixes the casing issue `issue` of `text` (document `uri`): a
/// quick fix titled by [`casing_title`] whose one edit is [`casing_edit`].
pub open spec fn is_casing_action(
    action: CodeActionOrCommand,
    uri: Seq<char>,
    text: Seq<char>,
    issue: CasingModel,
) -> bool {
    match action {
        CodeActionOrCommand::CodeAction(ca) => {
            &&& ca.title@ == casing_title(issue)
            &&& opt_view_kind(ca.kind) == Some("quickfix"@)
            &&& match ca.edit {
                Some(edit) => match edit.changes {
                    Some(changes) => changes@.len() == 1 && changes@[0].0@ == uri && edits_view(
                        changes@[0].1@,
                    ) == seq![casing_edit(text, issue)],
                    None => false,
                },
                None => false,
            }
        },
        CodeActionOrCommand::Command(_) => false,
    }
}

/// The diagnostic `d` reports the casing issue `issue` of `text`: it is a
/// `field-casing` diagnostic at the range of the field name.
pub open spec fn reports_issue(d: Diagnostic, text: Seq<char>, issue: CasingModel) -> bool {
    &&& d.range == casing_range(text, issue)
    &&& opt_code(d.code) == Some(CodeModel::Text("field-casing"@))
}

/// A casing issue is offered as a fix when no diagnostics were given, or
/// one of the given diagnostics reports it.
pub open spec fn casing_offered(text: Seq<char>, issue: CasingModel, filter: Seq<Diagnostic>) -> bool {
    filter.len() == 0 || exists|j: int| 0 <= j < filter.len() && reports_issue(#[trigger] filter[j], text, issue)
}

/// The casing issues of `issues` offered as fixes, in order.
pub open spec fn offered_issues(text: Seq<char>, issues: Seq<CasingModel>, filter: Seq<Diagnostic>) -> Seq<
    CasingModel,
> {
    issues.filter(|i: CasingModel| casing_offered(text, i, filter))
}

/// An action the server plans to offer, as plain values.
pub enum Planned {
    /// The single `source.fixAll` action applying these edits.
    FixAll(Seq<EditModel>),
    /// The quick fix of one casing issue.
    Casing(CasingModel),
    /// Marking the `UNRELEASED` at a byte range for upload to a distribution.
    Upload((int, int), Seq<char>),
}

/// The kind of a planned action.
pub open spec fn planned_kind(p: Planned) -> Seq<char> {
    match p {
        Planned::FixAll(_) => source_fix_all(),
        Planned::Casing(_) => "quickfix"@,
        Planned::Upload(_, _) => "refactor"@,
    }
}

/// `action` is the planned action `p` for document `uri` with text `text`.
pub open spec fn realizes(action: CodeActionOrCommand, p: Planned, uri: Seq<char>, text: Seq<char>) -> bool {
    match p {
        Planned::FixAll(edits) => is_fix_all(action, uri, edits),
        Planned::Casing(issue) => is_casing_action(action, uri, text, issue),
        Planned::Upload(range, target) => is_upload_action(action, uri, text, range, target),
    }
}

/// The casing actions of a control or copyright file with the entries
/// `entries`, for the byte range `tr`: with `fix_all`, every issue of the
/// file, the fix-all action first when there is one; else the issues that
/// meet `tr` and that `diagnostics` report, if any were given.
pub open spec fn casing_plan(
    text: Seq<char>,
    entries: Seq<((int, int), Option<Seq<char>>, Option<(int, int)>)>,
    tr: TextRange,
    fix_all: bool,
    diagnostics: Seq<Diagnostic>,
    names: Seq<Seq<char>>,
) -> Seq<Planned> {
    let issues = casing_issues(entries, if fix_all { None } else { Some(tr) }, names);
    let offered = offered_issues(text, issues, if fix_all { seq![] } else { diagnostics });
    let casing = offered.map_values(|i: CasingModel| Planned::Casing(i));
    if fix_all && offered.len() > 0 {
        seq![Planned::FixAll(offered.map_values(|i: CasingModel| casing_edit(text, i)))] + casing
    } else {
        casing
    }
}

/// The actions planned for a document of kind `kind` and text `text` for
/// the LSP range `range`, before the filtering by requested kinds: none at
/// all for the kinds that have no code actions, or for a control or
/// copyright file when the range does not lie in the text.
pub open spec fn code_action_plan(
    kind: FileType,
    text: Seq<char>,
    range: Range,
    requested: Option<Seq<String>>,
    diagnostics: Seq<Diagnostic>,
    names: Seq<Seq<char>>,
) -> Option<Seq<Planned>> {
    match kind {
        FileType::Control => match lsp_text_range(text, range) {
            Some(tr) => Some(
                casing_plan(text, control_entries_of(text), tr, fix_all_wanted(requested), diagnostics, names),
            ),
            None => None,
        },
        FileType::Copyright => match lsp_text_range(text, range) {
            Some(tr) => Some(
                casing_plan(text, copyright_entries_of(text), tr, fix_all_wanted(requested), diagnostics, names),
            ),
            None => None,
        },
        FileType::Changelog => match lsp_text_range(text, range) {
            Some(tr) => Some(
                unreleased_infos(
                    changelog_entries_in_range_of(text, tr.start as int, tr.end as int),
                    target_distribution_spec(text),
                ).map_values(|u: ((int, int), Seq<char>)| Planned::Upload(u.0, u.1)),
            ),
            None => Some(seq![]),
        },
        FileType::Watch | FileType::UpstreamMetadata | FileType::TestsControl | FileType::Patch => Some(
            seq![],
        ),
        _ => None,
    }
}

/// The planned actions the client asked for: all of them when it named no
/// kinds.
pub open spec fn wanted_plan(plan: Seq<Planned>, requested: Option<Seq<String>>) -> Seq<Planned> {
    match requested {
        Some(kinds) => plan.filter(|p: Planned| matches_any(planned_kind(p), kinds)),
        None => plan,
    }
}

/// An action that realizes a plan entry is wanted exactly when the entry's
/// kind is.
proof fn lemma_realized_wanted(a: CodeActionOrCommand, p: Planned, uri: Seq<char>, text: Seq<char>, kinds: Seq<String>)
    requires
        realizes(a, p, uri, text),
    ensures
        action_wanted(a, kinds) == matches_any(planned_kind(p), kinds),
{
}

/// The edits of an action that fixes one casing issue.
proof fn lemma_casing_action_edits(a: CodeActionOrCommand, uri: Seq<char>, text: Seq<char>, issue: CasingModel)
    requires
        is_casing_action(a, uri, text, issue),
    ensures
        action_edits(a, uri) == seq![casing_edit(text, issue)],
{
    if let CodeActionOrCommand::CodeAction(ca) = a {
        if let Some(edit) = ca.edit {
            if let Some(changes) = edit.changes {
                assert(uri_edits(changes@, uri) == edits_view(changes@[0].1@));
            }
        }
    }
}

/// Whether one of `filter` reports `issue`.
fn issue_offered(text: &str, issue: &FieldCasingIssue, filter: &Vec<Diagnostic>) -> (r: bool)
    requires
        2 * text@.len() <= u32::MAX,
    ensures
        r == casing_offered(text@, issue@, filter@),
{
    if filter.len() == 0 {
        return true;
    }
    let range = text_range_to_lsp_range(text, issue.field_range.start, issue.field_range.end);
    assert(range == casing_range(text@, issue@));
    proof {
        reveal_strlit("field-casing");
    }
    let mut j: usize = 0;
    while j < filter.len()
        invariant
            j <= filter.len(),
            range == casing_range(text@, issue@),
            forall|k: int| 0 <= k < j ==> !reports_issue(#[trigger] filter@[k], text@, issue@),
        decreases filter.len() - j,
    {
        let d = &filter[j];
        let code_matches = match &d.code {
            Some(NumberOrString::String(c)) => str_eq(c.as_str(), "field-casing"),
            _ => false,
        };
        if d.range == range && code_matches {
            assert(reports_issue(filter@[j as int], text@, issue@));
            return true;
        }
        j += 1;
    }
    false
}

/// The quick fixes for the casing issues `issues` of `text` (document
/// `uri`) that `filter` lets through, in order.
pub fn casing_fix_actions(uri: &str, text: &str, issues: &Vec<FieldCasingIssue>, filter: &Vec<Diagnostic>) -> (r: Vec<
    CodeActionOrCommand,
>)
    requires
        2 * text@.len() <= u32::MAX,
    ensures
        r.len() == offered_issues(text@, casing_view(issues@), filter@).len(),
        forall|i: int|
            0 <= i < r.len() ==> #[trigger] is_casing_action(
                r@[i],
                uri@,
                text@,
                offered_issues(text@, casing_view(issues@), filter@)[i],
            ),
        all_edits(r@, uri@) == offered_issues(text@, casing_view(issues@), filter@).map_values(
            |i: CasingModel| casing_edit(text@, i),
        ),
{
    let ghost all = casing_view(issues@);
    let ghost pred = |i: CasingModel| casing_offered(text@, i, filter@);
    let mut r: Vec<CodeActionOrCommand> = Vec::new();
    let mut k: usize = 0;
    while k < issues.len()
        invariant
            k <= issues.len(),
            2 * text@.len() <= u32::MAX,
            all == casing_view(issues@),
            pred == (|i: CasingModel| casing_offered(text@, i, filter@)),
            r.len() == all.take(k as int).filter(pred).len(),
            forall|i: int|
                0 <= i < r.len() ==> #[trigger] is_casing_action(
                    r@[i],
                    uri@,
                    text@,
                    all.take(k as int).filter(pred)[i],
                ),
            all_edits(r@, uri@) == all.take(k as int).filter(pred).map_values(
                |i: CasingModel| casing_edit(text@, i),
            ),
        decreases issues.len() - k,
    {
        let issue = &issues[k];
        assert(all.take(k + 1) =~= all.take(k as int).push(issue@));
        proof {
            all.take(k as int).lemma_filter_push(issue@, pred);
        }
        if issue_offered(text, issue, filter) {
            let range = text_range_to_lsp_range(text, issue.field_range.start, issue.field_range.end);
            let edit = TextEdit { range, new_text: issue.standard_name.clone() };
            let changes = vec![(String::from_str(uri), vec![edit])];
            let mut title = concat("Fix field casing: ", issue.field_name.as_str());
            title.append(" -> ");
            title.append(issue.standard_name.as_str());
            proof {
                reveal_strlit("quickfix");
            }
            let action = CodeActionOrCommand::CodeAction(
                CodeAction {
                    title,
                    kind: Some(String::from_str("quickfix")),
                    edit: Some(WorkspaceEdit { changes: Some(changes) }),
                },
            );
            assert(edits_view(changes@[0].1@) =~= seq![casing_edit(text@, issue@)]);
            assert(is_casing_action(action, uri@, text@, issue@));
            let ghost before = r@;
            let ghost prev = all.take(k as int).filter(pred);
            r.push(action);
            proof {
                lemma_casing_action_edits(action, uri@, text@, issue@);
                assert(r@.drop_last() =~= before);
                assert(prev.push(issue@).map_values(|i: CasingModel| casing_edit(text@, i)) =~= prev.map_values(
                    |i: CasingModel| casing_edit(text@, i),
                ).push(casing_edit(text@, issue@)));
                assert(all_edits(r@, uri@) =~= all_edits(before, uri@) + seq![casing_edit(text@, issue@)]);
            }
        }
        k += 1;
    }
    assert(all.take(issues.len() as int) =~= all);
    r
}

/// The casing actions planned for a file whose entries the parser gave as
/// `entries`.
pub fn casing_plan_actions(
    uri: &str,
    text: &str,
    entries: &Vec<((usize, usize), Option<String>, Option<(usize, usize)>)>,
    tr: TextRange,
    fix_all: bool,
    diagnostics: &Vec<Diagnostic>,
    fields: &Vec<FieldInfo>,
) -> (r: Vec<CodeActionOrCommand>)
    requires
        2 * text@.len() <= u32::MAX,
    ensures
        ({
            let plan = casing_plan(
                text@,
                entries@.map_values(
                    |e: ((usize, usize), Option<String>, Option<(usize, usize)>)| centry_view(e),
                ),
                tr,
                fix_all,
                diagnostics@,
                names_of(fields@),
            );
            r.len() == plan.len() && forall|i: int| 0 <= i < r.len() ==> #[trigger] realizes(r@[i], plan[i], uri@, text@)
        }),
{
    let issues = field_casing_issues(entries, if fix_all { None } else { Some(tr) }, fields);
    let no_filter: Vec<Diagnostic> = Vec::new();
    let filter = if fix_all { &no_filter } else { diagnostics };
    assert(filter@ == (if fix_all { seq![] } else { diagnostics@ }));
    let casing = casing_fix_actions(uri, text, &issues, filter);
    let ghost offered = offered_issues(text@, casing_view(issues@), filter@);
    let ghost plan_casing = offered.map_values(|i: CasingModel| Planned::Casing(i));
    let mut r: Vec<CodeActionOrCommand> = Vec::new();
    if fix_all {
        let fix = build_fix_all_action(uri, &casing);
        match fix {
            Some(action) => {
                r.push(action);
            },
            None => {},
        }
    }
    let ghost head = r@;
    let ghost cs = casing@;
    let mut casing = casing;
    r.append(&mut casing);
    assert(r@ == head + cs);
    proof {
        let plan = casing_plan(
            text@,
            entries@.map_values(
                |e: ((usize, usize), Option<String>, Option<(usize, usize)>)| centry_view(e),
            ),
            tr,
            fix_all,
            diagnostics@,
            names_of(fields@),
        );
        if fix_all && offered.len() > 0 {
            assert(plan == seq![Planned::FixAll(offered.map_values(|i: CasingModel| casing_edit(text@, i)))]
                + plan_casing);
            assert(offered.map_values(|i: CasingModel| casing_edit(text@, i)).len() > 0);
            assert(head.len() == 1);
            assert forall|i: int| 0 <= i < r.len() implies #[trigger] realizes(r@[i], plan[i], uri@, text@) by {
                if i > 0 {
                    assert(r@[i] == cs[i - 1]);
                    assert(plan[i] == plan_casing[i - 1]);
                }
            }
        } else {
            if fix_all {
                assert(all_edits(cs, uri@).len() == 0);
            }
            assert(head.len() == 0);
            assert(plan == plan_casing);
            assert forall|i: int| 0 <= i < r.len() implies #[trigger] realizes(r@[i], plan[i], uri@, text@) by {
                assert(r@[i] == cs[i]);
                assert(plan[i] == plan_casing[i]);
            }
        }
    }
    r
}

} // verus!

verus! {

/// The code actions for a document of kind `kind`, URI `uri` and text
/// `text`, for the LSP range `range`, as a client that asked for the kinds
/// `requested_kinds` (all, when none) and sent `diagnostics` receives them.
///
/// Control and copyright files get a quick fix per field whose name is a
/// name of `fields` written in other casing: with `source.fixAll` asked
/// for, every such field of the file and, first, one action applying all
/// the fixes; else the fields that meet the range and that `diagnostics`
/// report, when any were sent. A range outside the text gives no response.
/// A changelog gets a "Mark for upload" action per `UNRELEASED` entry that
/// meets the range, to the distribution of the newest released entry.
/// Watch, upstream metadata, tests/control and patch files get none; other
/// kinds no response.
pub fn code_actions(
    kind: FileType,
    uri: &str,
    text: &str,
    range: Range,
    requested_kinds: Option<&[String]>,
    diagnostics: &Vec<Diagnostic>,
    fields: &Vec<FieldInfo>,
) -> (r: Option<Vec<CodeActionOrCommand>>)
    requires
        2 * text@.len() <= u32::MAX,
        fits_text_size(text@),
    ensures
        ({
            let requested = match requested_kinds {
                Some(k) => Some(k@),
                None => None,
            };
            match code_action_plan(kind, text@, range, requested, diagnostics@, names_of(fields@)) {
                None => r is None,
                Some(plan) => {
                    let kept = wanted_plan(plan, requested);
                    match r {
                        Some(v) => kept.len() > 0 && v.len() == kept.len() && forall|i: int|
                            0 <= i < v.len() ==> #[trigger] realizes(v@[i], kept[i], uri@, text@),
                        None => kept.len() == 0,
                    }
                },
            }
        }),
{
    match kind {
        FileType::Control
        | FileType::Copyright
        | FileType::Changelog
        | FileType::Watch
        | FileType::UpstreamMetadata
        | FileType::TestsControl
        | FileType::Patch => {},
        _ => {
            return None;
        },
    }
    let ghost requested = match requested_kinds {
        Some(k) => Some(k@),
        None => None,
    };
    let text_range = lsp_range_to_text_range(text, range);
    let fix_all = wants_fix_all(requested_kinds);
    let actions: Vec<CodeActionOrCommand> = match kind {
        FileType::Control => match text_range {
            Some(tr) => {
                let entries = control_entries(text);
                casing_plan_actions(uri, text, &entries, tr, fix_all, diagnostics, fields)
            },
            None => {
                return None;
            },
        },
        FileType::Copyright => match text_range {
            Some(tr) => {
                let entries = crate::workspace::copyright_entries(text);
                casing_plan_actions(uri, text, &entries, tr, fix_all, diagnostics, fields)
            },
            None => {
                return None;
            },
        },
        FileType::Changelog => match text_range {
            Some(tr) => {
                let infos = unreleased_entries_in_range(text, tr);
                let acts = mark_for_upload_actions(uri, text, &infos);
                proof {
                    let plan = code_action_plan(kind, text@, range, requested, diagnostics@, names_of(fields@))->0;
                    assert forall|i: int| 0 <= i < acts.len() implies #[trigger] realizes(acts@[i], plan[i], uri@, text@) by {
                        assert(infos_view(infos@)[i] == unreleased_infos(
                            changelog_entries_in_range_of(text@, tr.start as int, tr.end as int),
                            target_distribution_spec(text@),
                        )[i]);
                    }
                }
                acts
            },
            None => Vec::new(),
        },
        _ => Vec::new(),
    };
    let ghost plan = code_action_plan(kind, text@, range, requested, diagnostics@, names_of(fields@))->0;
    assert(actions.len() == plan.len());
    assert(forall|i: int| 0 <= i < actions.len() ==> #[trigger] realizes(actions@[i], plan[i], uri@, text@));
    let kept = match requested_kinds {
        Some(kinds) => {
            let ghost pred = |p: Planned| matches_any(planned_kind(p), kinds@);
            let ghost all = actions@;
            let mut rest = actions;
            let mut kept: Vec<CodeActionOrCommand> = Vec::new();
            let ghost mut done: int = 0;
            while rest.len() > 0
                invariant
                    0 <= done <= all.len(),
                    all.len() == plan.len(),
                    forall|i: int| 0 <= i < all.len() ==> #[trigger] realizes(all[i], plan[i], uri@, text@),
                    rest@ == all.skip(done),
                    pred == (|p: Planned| matches_any(planned_kind(p), kinds@)),
                    kept.len() == plan.take(done).filter(pred).len(),
                    forall|i: int| 0 <= i < kept.len() ==> #[trigger] realizes(kept@[i], plan.take(done).filter(pred)[i], uri@, text@),
                decreases rest.len(),
            {
                let a = rest.remove(0);
                assert(a == all[done]);
                assert(rest@ =~= all.skip(done + 1));
                assert(plan.take(done + 1) =~= plan.take(done).push(plan[done]));
                proof {
                    plan.take(done).lemma_filter_push(plan[done], pred);
                    lemma_realized_wanted(a, plan[done], uri@, text@, kinds@);
                }
                if action_matches_requested_kinds(&a, kinds) {
                    kept.push(a);
                }
                proof {
                    done = done + 1;
                }
            }
            assert(plan.take(done) =~= plan);
            kept
        },
        None => actions,
    };
    if kept.len() == 0 {
        None
    } else {
        Some(kept)
    }
}

} // verus!
