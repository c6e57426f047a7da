//! Code actions: which of them a client asked for, and the single
//! `source.fixAll` action that applies every quick fix of a document.

use vstd::prelude::*;
use crate::lsp::Range;
use crate::position::{position_at, text_range_to_lsp_range};
use crate::workspace::{UnreleasedUploadInfo, infos_view};
use crate::text::{concat, str_eq, str_starts_with};

verus! {

/// A replacement of the text in `range` by `new_text`.
pub struct TextEdit {
    pub range: Range,
    pub new_text: String,
}

/// A text edit as plain values.
pub type EditModel = (Range, Seq<char>);

impl View for TextEdit {
    type V = EditModel;

    open spec fn view(&self) -> EditModel {
        (self.range, self.new_text@)
    }
}

/// The models of a list of edits.
pub open spec fn edits_view(v: Seq<TextEdit>) -> Seq<EditModel> {
    v.map_values(|e: TextEdit| e@)
}

/// Edits to several documents, keyed by URI; each URI occurs once.
pub struct WorkspaceEdit {
    pub changes: Option<Vec<(String, Vec<TextEdit>)>>,
}

/// A code action: a title, its kind, and the edit it applies.
pub struct CodeAction {
    pub title: String,
    pub kind: Option<String>,
    pub edit: Option<WorkspaceEdit>,
}

/// A command the client can run.
pub struct Command {
    pub title: String,
    pub command: String,
}

/// A code action or a bare command.
pub enum CodeActionOrCommand {
    CodeAction(CodeAction),
    Command(Command),
}

/// `kind` is `requested` or one of its sub-kinds: `requested`, a dot, and
/// more.
pub open spec fn kind_matches(kind: Seq<char>, requested: Seq<char>) -> bool {
    kind == requested || (requested + "."@).is_prefix_of(kind)
}

/// Whether `kind` is `requested` or a sub-kind of it (LSP prefix semantics).
pub fn kind_matches_prefix(kind: &str, requested: &str) -> (r: bool)
    ensures
        r == kind_matches(kind@, requested@),
{
    if str_eq(kind, requested) {
        return true;
    }
    let dotted = concat(requested, ".");
    str_starts_with(kind, dotted.as_str())
}

/// Some kind of `requested` that `kind` matches.
pub open spec fn matches_any(kind: Seq<char>, requested: Seq<String>) -> bool {
    exists|i: int| 0 <= i < requested.len() && kind_matches(kind, #[trigger] requested[i]@)
}

/// An action a client asking for the kinds `requested` wants: a code action
/// whose kind matches one of them. Commands have no kind and never match.
pub open spec fn action_wanted(action: CodeActionOrCommand, requested: Seq<String>) -> bool {
    match action {
        CodeActionOrCommand::CodeAction(ca) => match ca.kind {
            Some(kind) => matches_any(kind@, requested),
            None => false,
        },
        CodeActionOrCommand::Command(_) => false,
    }
}

/// Whether `kind` matches one of `requested_kinds`.
fn matches_any_kind(kind: &str, requested_kinds: &[String]) -> (r: bool)
    ensures
        r == matches_any(kind@, requested_kinds@),
{
    let mut i: usize = 0;
    while i < requested_kinds.len()
        invariant
            i <= requested_kinds.len(),
            forall|j: int| 0 <= j < i ==> !kind_matches(kind@, #[trigger] requested_kinds@[j]@),
        decreases requested_kinds.len() - i,
    {
        if kind_matches_prefix(kind, requested_kinds[i].as_str()) {
            return true;
        }
        i += 1;
    }
    false
}

/// Whether a code action or command matches one of the client's requested kinds.
///
/// LSP's `context.only` lets a client narrow the response to specific kinds.
/// A requested kind is treated as a prefix: requesting `source` matches
/// `source.fixAll` and `source.organizeImports`; requesting `quickfix` matches
/// `quickfix` and any `quickfix.foo` subkind. Commands have no kind and are
/// excluded when the client is filtering.
pub fn action_matches_requested_kinds(
    action: &CodeActionOrCommand,
    requested_kinds: &[String],
) -> (r: bool)
    ensures
        r == action_wanted(*action, requested_kinds@),
{
    match action {
        CodeActionOrCommand::CodeAction(ca) => match &ca.kind {
            Some(kind) => matches_any_kind(kind.as_str(), requested_kinds),
            None => false,
        },
        CodeActionOrCommand::Command(_) => false,
    }
}

/// The edits that `changes` holds for `uri`.
pub open spec fn uri_edits(changes: Seq<(String, Vec<TextEdit>)>, uri: Seq<char>) -> Seq<EditModel>
    decreases changes.len(),
{
    if changes.len() == 0 {
        seq![]
    } else if changes[0].0@ == uri {
        edits_view(changes[0].1@)
    } else {
        uri_edits(changes.drop_first(), uri)
    }
}

/// The edits that an action applies to `uri`.
pub open spec fn action_edits(action: CodeActionOrCommand, uri: Seq<char>) -> Seq<EditModel> {
    match action {
        CodeActionOrCommand::CodeAction(ca) => match ca.edit {
            Some(edit) => match edit.changes {
                Some(changes) => uri_edits(changes@, uri),
                None => seq![],
            },
            None => seq![],
        },
        CodeActionOrCommand::Command(_) => seq![],
    }
}

/// The edits that `actions` apply to `uri`, in order.
pub open spec fn all_edits(actions: Seq<CodeActionOrCommand>, uri: Seq<char>) -> Seq<EditModel>
    decreases actions.len(),
{
    if actions.len() == 0 {
        seq![]
    } else {
        all_edits(actions.drop_last(), uri) + action_edits(actions.last(), uri)
    }
}

/// Copies of the edits `changes` holds for `uri`.
fn edits_for_uri(changes: &Vec<(String, Vec<TextEdit>)>, uri: &str) -> (r: Vec<TextEdit>)
    ensures
        edits_view(r@) == uri_edits(changes@, uri@),
{
    let mut i: usize = 0;
    assert(changes@.skip(0) =~= changes@);
    while i < changes.len()
        invariant
            i <= changes.len(),
            uri_edits(changes@, uri@) == uri_edits(changes@.skip(i as int), uri@),
        decreases changes.len() - i,
    {
        assert(changes@.skip(i as int)[0] == changes@[i as int]);
        if str_eq(changes[i].0.as_str(), uri) {
            let edits = &changes[i].1;
            let mut r: Vec<TextEdit> = Vec::new();
            let mut k: usize = 0;
            while k < edits.len()
                invariant
                    k <= edits.len(),
                    r.len() == k,
                    edits_view(r@) == edits_view(edits@).take(k as int),
                decreases edits.len() - k,
            {
                let e = &edits[k];
                let ghost before = r@;
                let copy = TextEdit { range: e.range, new_text: e.new_text.clone() };
                assert(copy@ == edits@[k as int]@);
                r.push(copy);
                assert(edits_view(r@) =~= edits_view(before).push(edits@[k as int]@));
                assert(edits_view(edits@).take(k + 1) =~= edits_view(edits@).take(k as int).push(
                    edits@[k as int]@,
                ));
                assert(edits_view(r@) =~= edits_view(edits@).take(k + 1));
                k += 1;
            }
            assert(edits_view(edits@).take(edits.len() as int) =~= edits_view(edits@));
            return r;
        }
        assert(changes@.skip(i as int).drop_first() =~= changes@.skip(i + 1));
        i += 1;
    }
    Vec::new()
}

/// The title of the combined action.
pub open spec fn fix_all_title() -> Seq<char> {
    "Fix all auto-fixable problems"@
}

/// The kind of the combined action.
pub open spec fn source_fix_all() -> Seq<char> {
    "source.fixAll"@
}

/// `action` is the single `source.fixAll` action whose edit applies `edits`
/// to `uri`.
pub open spec fn is_fix_all(action: CodeActionOrCommand, uri: Seq<char>, edits: Seq<EditModel>) -> bool {
    match action {
        CodeActionOrCommand::CodeAction(ca) => {
            &&& ca.title@ == fix_all_title()
            &&& opt_view_kind(ca.kind) == Some(source_fix_all())
            &&& match ca.edit {
                Some(edit) => match edit.changes {
                    Some(changes) => changes@.len() == 1 && changes@[0].0@ == uri && edits_view(
                        changes@[0].1@,
                    ) == edits,
                    None => false,
                },
                None => false,
            }
        },
        CodeActionOrCommand::Command(_) => false,
    }
}

/// The view of an optional kind.
pub open spec fn opt_view_kind(k: Option<String>) -> Option<Seq<char>> {
    match k {
        Some(s) => Some(s@),
        None => None,
    }
}

/// Build a single `source.fixAll` action that applies every text edit from
/// `quickfix_actions` for `uri` at once. Returns None if there are no edits.
///
/// LSP's `source.fixAll` is meant to apply all auto-fixable problems without
/// user interaction, so we collapse the individual quickfixes into one
/// workspace edit.
pub fn build_fix_all_action(uri: &str, quickfix_actions: &[CodeActionOrCommand]) -> (r: Option<
    CodeActionOrCommand,
>)
    ensures
        match r {
            Some(action) => all_edits(quickfix_actions@, uri@).len() > 0 && is_fix_all(
                action,
                uri@,
                all_edits(quickfix_actions@, uri@),
            ),
            None => all_edits(quickfix_actions@, uri@).len() == 0,
        },
{
    let mut edits: Vec<TextEdit> = Vec::new();
    let mut i: usize = 0;
    while i < quickfix_actions.len()
        invariant
            i <= quickfix_actions.len(),
            edits_view(edits@) == all_edits(quickfix_actions@.take(i as int), uri@),
        decreases quickfix_actions.len() - i,
    {
        let ghost pre = quickfix_actions@.take(i + 1);
        assert(pre.drop_last() =~= quickfix_actions@.take(i as int));
        assert(pre.last() == quickfix_actions@[i as int]);
        let mut found: Vec<TextEdit> = Vec::new();
        if let CodeActionOrCommand::CodeAction(ca) = &quickfix_actions[i] {
            if let Some(edit) = &ca.edit {
                if let Some(changes) = &edit.changes {
                    found = edits_for_uri(changes, uri);
                }
            }
        }
        assert(edits_view(found@) == action_edits(quickfix_actions@[i as int], uri@));
        let ghost before = edits_view(edits@);
        edits.append(&mut found);
        assert(edits_view(edits@) =~= before + action_edits(quickfix_actions@[i as int], uri@));
        i += 1;
    }
    assert(quickfix_actions@.take(quickfix_actions.len() as int) =~= quickfix_actions@);
    if edits.len() == 0 {
        return None;
    }
    let ghost all = edits_view(edits@);
    let changes = vec![(String::from_str(uri), edits)];
    assert(edits_view(changes@[0].1@) == all);
    Some(
        CodeActionOrCommand::CodeAction(
            CodeAction {
                title: String::from_str("Fix all auto-fixable problems"),
                kind: Some(String::from_str("source.fixAll")),
                edit: Some(WorkspaceEdit { changes: Some(changes) }),
            },
        ),
    )
}

} // verus!

verus! {

/// Every kind matches a request for itself.
pub proof fn lemma_kind_matches_reflexive(kind: Seq<char>)
    ensures
        kind_matches(kind, kind),
{
}

/// A sub-kind of a sub-kind of `c` is a sub-kind of `c`: a request for `c`
/// takes in everything a request for `b` does, when `b` matches `c`.
pub proof fn lemma_kind_matches_transitive(a: Seq<char>, b: Seq<char>, c: Seq<char>)
    requires
        kind_matches(a, b),
        kind_matches(b, c),
    ensures
        kind_matches(a, c),
{
    if a != b && b != c {
        reveal_strlit(".");
        let cd = c + "."@;
        let bd = b + "."@;
        assert forall|i: int| 0 <= i < cd.len() implies cd[i] == a[i] by {
            assert(cd[i] == b[i]);
            assert(b[i] == bd[i]);
        }
        assert(a.take(cd.len() as int) =~= cd);
    }
}

/// Matching goes one way only: a kind and a proper sub-kind of it never
/// match each other both ways.
pub proof fn lemma_kind_matches_antisymmetric(a: Seq<char>, b: Seq<char>)
    requires
        kind_matches(a, b),
        kind_matches(b, a),
    ensures
        a == b,
{
    reveal_strlit(".");
}

/// Whether a client asking for the kinds `requested` wants the
/// `source.fixAll` action.
pub open spec fn fix_all_wanted(requested: Option<Seq<String>>) -> bool {
    match requested {
        Some(kinds) => matches_any(source_fix_all(), kinds),
        None => false,
    }
}

/// Whether the client asked for `source.fixAll`, directly or through a
/// kind it is a sub-kind of.
pub fn wants_fix_all(requested_kinds: Option<&[String]>) -> (r: bool)
    ensures
        r == fix_all_wanted(
            match requested_kinds {
                Some(k) => Some(k@),
                None => None,
            },
        ),
{
    match requested_kinds {
        Some(kinds) => matches_any_kind("source.fixAll", kinds),
        None => false,
    }
}

/// The actions the client asked for, in order: all of them when it named
/// no kinds.
pub open spec fn requested_actions(
    actions: Seq<CodeActionOrCommand>,
    requested: Option<Seq<String>>,
) -> Seq<CodeActionOrCommand> {
    match requested {
        Some(kinds) => actions.filter(|a: CodeActionOrCommand| action_wanted(a, kinds)),
        None => actions,
    }
}

/// The response to a code-action request: the actions of the kinds the
/// client asked for, or nothing when none is left.
pub fn respond_with_actions(
    actions: Vec<CodeActionOrCommand>,
    requested_kinds: Option<&[String]>,
) -> (r: Option<Vec<CodeActionOrCommand>>)
    ensures
        ({
            let kept = requested_actions(
                actions@,
                match requested_kinds {
                    Some(k) => Some(k@),
                    None => None,
                },
            );
            match r {
                Some(v) => v@ == kept && kept.len() > 0,
                None => kept.len() == 0,
            }
        }),
{
    let ghost all = actions@;
    let kept = match requested_kinds {
        Some(kinds) => {
            let ghost pred = |a: CodeActionOrCommand| action_wanted(a, kinds@);
            let mut rest = actions;
            let mut kept: Vec<CodeActionOrCommand> = Vec::new();
            let ghost mut done: int = 0;
            while rest.len() > 0
                invariant
                    0 <= done <= all.len(),
                    rest@ == all.skip(done),
                    kept@ == all.take(done).filter(pred),
                    pred == (|a: CodeActionOrCommand| action_wanted(a, kinds@)),
                decreases rest.len(),
            {
                let ghost r0 = rest@;
                let a = rest.remove(0);
                assert(a == all[done]);
                assert(rest@ =~= all.skip(done + 1));
                assert(all.take(done + 1) =~= all.take(done).push(a));
                proof {
                    all.take(done).lemma_filter_push(a, pred);
                }
                if action_matches_requested_kinds(&a, kinds) {
                    kept.push(a);
                }
                proof {
                    done = done + 1;
                }
            }
            assert(all.take(done) =~= all);
            kept
        },
        None => actions,
    };
    if kept.len() == 0 {
        None
    } else {
        Some(kept)
    }
}

} // verus!

verus! {

/// `action` marks the `UNRELEASED` at bytes `range` of `text` (document
/// `uri`) for upload to `target`: a refactoring titled `Mark for upload to
/// <target>` whose edit puts `target` there.
pub open spec fn is_upload_action(
    action: CodeActionOrCommand,
    uri: Seq<char>,
    text: Seq<char>,
    range: (int, int),
    target: Seq<char>,
) -> bool {
    match action {
        CodeActionOrCommand::CodeAction(ca) => {
            &&& ca.title@ == "Mark for upload to "@ + target
            &&& opt_view_kind(ca.kind) == Some("refactor"@)
            &&& match ca.edit {
                Some(edit) => match edit.changes {
                    Some(changes) => changes@.len() == 1 && changes@[0].0@ == uri && edits_view(
                        changes@[0].1@,
                    ) == seq![
                        (
                            Range {
                                start: position_at(text, range.0),
                                end: position_at(text, range.1),
                            },
                            target,
                        ),
                    ],
                    None => false,
                },
                None => false,
            }
        },
        CodeActionOrCommand::Command(_) => false,
    }
}

/// The "Mark for upload" actions for the `UNRELEASED` entries `infos` of
/// the changelog `text`, whose URI is `uri`, one per entry in order.
pub fn mark_for_upload_actions(uri: &str, text: &str, infos: &Vec<UnreleasedUploadInfo>) -> (r: Vec<
    CodeActionOrCommand,
>)
    requires
        2 * text@.len() <= u32::MAX,
    ensures
        r.len() == infos.len(),
        forall|i: int|
            0 <= i < infos.len() ==> #[trigger] is_upload_action(
                r@[i],
                uri@,
                text@,
                infos_view(infos@)[i].0,
                infos_view(infos@)[i].1,
            ),
{
    let mut r: Vec<CodeActionOrCommand> = Vec::new();
    let mut i: usize = 0;
    while i < infos.len()
        invariant
            i <= infos.len(),
            2 * text@.len() <= u32::MAX,
            r.len() == i,
            forall|j: int|
                0 <= j < i ==> #[trigger] is_upload_action(
                    r@[j],
                    uri@,
                    text@,
                    infos_view(infos@)[j].0,
                    infos_view(infos@)[j].1,
                ),
        decreases infos.len() - i,
    {
        let info = &infos[i];
        let range = text_range_to_lsp_range(
            text,
            info.unreleased_range.start,
            info.unreleased_range.end,
        );
        let edit = TextEdit { range, new_text: info.target_distribution.clone() };
        let changes = vec![(String::from_str(uri), vec![edit])];
        let action = CodeActionOrCommand::CodeAction(
            CodeAction {
                title: concat("Mark for upload to ", info.target_distribution.as_str()),
                kind: Some(String::from_str("refactor")),
                edit: Some(WorkspaceEdit { changes: Some(changes) }),
            },
        );
        assert(edits_view(changes@[0].1@) =~= seq![(range, info.target_distribution@)]);
        r.push(action);
        i += 1;
    }
    r
}

} // verus!
