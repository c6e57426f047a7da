use debian_lsp::actions::{
    action_matches_requested_kinds, build_fix_all_action, kind_matches_prefix,
    mark_for_upload_actions, respond_with_actions, wants_fix_all, CodeAction, CodeActionOrCommand,
    Command, TextEdit, WorkspaceEdit,
};
use debian_lsp::lsp::{Position, Range};
use debian_lsp::position::TextRange;
use debian_lsp::workspace::UnreleasedUploadInfo;

fn action(title: &str, kind: Option<&str>, edit: Option<WorkspaceEdit>) -> CodeActionOrCommand {
    CodeActionOrCommand::CodeAction(CodeAction {
        title: title.to_string(),
        kind: kind.map(|k| k.to_string()),
        edit,
    })
}

fn kinds(v: &[&str]) -> Vec<String> {
    v.iter().map(|s| s.to_string()).collect()
}

#[test]
fn test_kind_matches_prefix_exact() {
    assert!(kind_matches_prefix("quickfix", "quickfix"));
}

#[test]
fn test_kind_matches_prefix_subkind() {
    assert!(kind_matches_prefix("source.fixAll", "source"));
    assert!(kind_matches_prefix("source.organizeImports", "source"));
}

#[test]
fn test_kind_matches_prefix_non_match() {
    assert!(!kind_matches_prefix("quickfix", "source"));
    assert!(!kind_matches_prefix("source", "source.fixAll"));
}

#[test]
fn test_kind_matches_prefix_does_not_match_partial_segment() {
    assert!(!kind_matches_prefix("sourcefoo", "source"));
}

#[test]
fn test_action_matches_requested_kinds_filters_quickfix_under_source() {
    let quickfix = action("fix", Some("quickfix"), None);
    assert!(!action_matches_requested_kinds(&quickfix, &kinds(&["source"])));
    assert!(action_matches_requested_kinds(&quickfix, &kinds(&["quickfix"])));
}

#[test]
fn test_action_matches_requested_kinds_commands_excluded_when_filtering() {
    let cmd = CodeActionOrCommand::Command(Command {
        title: "do thing".to_string(),
        command: "ext.doThing".to_string(),
    });
    assert!(!action_matches_requested_kinds(&cmd, &kinds(&["source.fixAll"])));
}

#[test]
fn test_action_matches_requested_kinds_source_fix_all_matches() {
    let fix_all = action("Fix all", Some("source.fixAll"), None);
    assert!(action_matches_requested_kinds(&fix_all, &kinds(&["source.fixAll"])));
    assert!(action_matches_requested_kinds(&fix_all, &kinds(&["source"])));
}

fn edit(line: u32, end: u32, text: &str) -> TextEdit {
    TextEdit {
        range: Range::new(Position::new(line, 0), Position::new(line, end)),
        new_text: text.to_string(),
    }
}

fn changes(uri: &str, edits: Vec<TextEdit>) -> Option<WorkspaceEdit> {
    Some(WorkspaceEdit { changes: Some(vec![(uri.to_string(), edits)]) })
}

#[test]
fn test_build_fix_all_action_combines_edits() {
    let uri = "file:///debian/control";
    let action1 = action("Fix Source", Some("quickfix"), changes(uri, vec![edit(0, 6, "Source")]));
    let action2 = action(
        "Fix Maintainer",
        Some("quickfix"),
        changes(uri, vec![edit(1, 10, "Maintainer")]),
    );
    let action_other = action("Unrelated", Some("quickfix"), changes("file:///other", vec![edit(0, 0, "x")]));
    let combined = build_fix_all_action(uri, &[action1, action2, action_other]).expect("Should build");
    let CodeActionOrCommand::CodeAction(ca) = combined else {
        panic!("Expected CodeAction");
    };
    assert_eq!(ca.kind.as_deref(), Some("source.fixAll"));
    assert_eq!(ca.title, "Fix all auto-fixable problems");
    let changes = ca.edit.as_ref().and_then(|e| e.changes.as_ref()).expect("changes");
    assert_eq!(changes.len(), 1);
    assert_eq!(changes[0].0, uri);
    let edits = &changes[0].1;
    assert_eq!(edits.len(), 2);
    assert_eq!(edits[0].new_text, "Source");
    assert_eq!(edits[0].range, Range::new(Position::new(0, 0), Position::new(0, 6)));
    assert_eq!(edits[1].new_text, "Maintainer");
    assert_eq!(edits[1].range, Range::new(Position::new(1, 0), Position::new(1, 10)));
}

#[test]
fn test_build_fix_all_action_returns_none_for_empty_input() {
    assert!(build_fix_all_action("file:///debian/control", &[]).is_none());
}

#[test]
fn test_build_fix_all_action_returns_none_when_no_edits_for_uri() {
    let a = action("Other", Some("quickfix"), changes("file:///other", vec![edit(0, 0, "x")]));
    assert!(build_fix_all_action("file:///debian/control", &[a]).is_none());
}

#[test]
fn fix_all_wanted_through_a_parent_kind() {
    assert!(wants_fix_all(Some(&kinds(&["source"]))));
    assert!(wants_fix_all(Some(&kinds(&["quickfix", "source.fixAll"]))));
    assert!(!wants_fix_all(Some(&kinds(&["quickfix"]))));
    assert!(!wants_fix_all(None));
}

#[test]
fn respond_keeps_requested_kinds_in_order() {
    let actions = vec![
        action("a", Some("quickfix"), None),
        action("b", Some("source.fixAll"), None),
        action("c", None, None),
        action("d", Some("quickfix.extra"), None),
    ];
    let kept = respond_with_actions(actions, Some(&kinds(&["quickfix"]))).expect("some");
    let titles: Vec<String> = kept
        .iter()
        .map(|a| match a {
            CodeActionOrCommand::CodeAction(ca) => ca.title.clone(),
            CodeActionOrCommand::Command(c) => c.title.clone(),
        })
        .collect();
    assert_eq!(titles, vec!["a".to_string(), "d".to_string()]);
}

#[test]
fn respond_with_nothing_left_is_none() {
    let actions = vec![action("a", Some("quickfix"), None)];
    assert!(respond_with_actions(actions, Some(&kinds(&["source"]))).is_none());
    assert!(respond_with_actions(vec![], None).is_none());
    let all = vec![action("a", None, None)];
    assert_eq!(respond_with_actions(all, None).map(|v| v.len()), Some(1));
}

#[test]
fn upload_action_replaces_unreleased() {
    let text = "foo (1.0-2) UNRELEASED; urgency=medium\n";
    let infos = vec![UnreleasedUploadInfo {
        unreleased_range: TextRange { start: 12, end: 22 },
        target_distribution: "unstable".to_string(),
    }];
    let actions = mark_for_upload_actions("file:///debian/changelog", text, &infos);
    assert_eq!(actions.len(), 1);
    let CodeActionOrCommand::CodeAction(ca) = &actions[0] else {
        panic!("Expected CodeAction");
    };
    assert_eq!(ca.title, "Mark for upload to unstable");
    assert_eq!(ca.kind.as_deref(), Some("refactor"));
    let changes = ca.edit.as_ref().and_then(|e| e.changes.as_ref()).expect("changes");
    assert_eq!(changes[0].0, "file:///debian/changelog");
    assert_eq!(changes[0].1[0].new_text, "unstable");
    assert_eq!(
        changes[0].1[0].range,
        Range::new(Position::new(0, 12), Position::new(0, 22))
    );
}
