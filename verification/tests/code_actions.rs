use debian_lsp::actions::{CodeActionOrCommand, TextEdit};
use debian_lsp::code_actions::{code_actions, lsp_range_to_text_range};
use debian_lsp::file_type::FileType;
use debian_lsp::lsp::{Diagnostic, DiagnosticSeverity, NumberOrString, Position, Range};
use debian_lsp::position::TextRange;
use debian_lsp::templates::fields::FieldInfo;

fn fields(names: &[&'static str]) -> Vec<FieldInfo> {
    names.iter().map(|n| FieldInfo { name: n, description: "" }).collect()
}

fn whole(text: &str) -> Range {
    let lines = text.matches('\n').count() as u32;
    Range { start: Position::new(0, 0), end: Position::new(lines, 0) }
}

fn parts(a: &CodeActionOrCommand) -> (String, Option<String>, Vec<TextEdit>) {
    match a {
        CodeActionOrCommand::CodeAction(ca) => {
            let edit = ca.edit.as_ref().unwrap();
            let changes = edit.changes.as_ref().unwrap();
            assert_eq!(changes.len(), 1);
            let edits = changes[0]
                .1
                .iter()
                .map(|e| TextEdit { range: e.range, new_text: e.new_text.clone() })
                .collect();
            (ca.title.clone(), ca.kind.clone(), edits)
        }
        CodeActionOrCommand::Command(_) => panic!("unexpected command"),
    }
}

const COPYRIGHT: &str = "format: https://www.debian.org/doc/packaging-manuals/copyright-format/1.0/\nUpstream-Name: foo\n";

#[test]
fn copyright_casing_quick_fix() {
    let r = code_actions(
        FileType::Copyright,
        "file:///debian/copyright",
        COPYRIGHT,
        whole(COPYRIGHT),
        None,
        &vec![],
        &fields(&["Format", "Upstream-Name"]),
    )
    .unwrap();
    assert_eq!(r.len(), 1);
    let (title, kind, edits) = parts(&r[0]);
    assert_eq!(title, "Fix field casing: format -> Format");
    assert_eq!(kind.as_deref(), Some("quickfix"));
    assert_eq!(edits.len(), 1);
    assert_eq!(edits[0].new_text, "Format");
    assert_eq!(edits[0].range, Range { start: Position::new(0, 0), end: Position::new(0, 6) });
}

#[test]
fn copyright_fix_all_only_when_asked() {
    let kinds = vec!["source.fixAll".to_string()];
    let r = code_actions(
        FileType::Copyright,
        "file:///debian/copyright",
        COPYRIGHT,
        Range { start: Position::new(1, 0), end: Position::new(1, 0) },
        Some(&kinds),
        &vec![],
        &fields(&["Format", "Upstream-Name"]),
    )
    .unwrap();
    assert_eq!(r.len(), 1);
    let (title, kind, edits) = parts(&r[0]);
    assert_eq!(title, "Fix all auto-fixable problems");
    assert_eq!(kind.as_deref(), Some("source.fixAll"));
    assert_eq!(edits.len(), 1);
    assert_eq!(edits[0].new_text, "Format");
}

#[test]
fn casing_fix_needs_a_matching_diagnostic_when_some_are_sent() {
    let other = Diagnostic {
        range: Range { start: Position::new(1, 0), end: Position::new(1, 4) },
        severity: Some(DiagnosticSeverity::Warning),
        code: Some(NumberOrString::String("field-casing".to_string())),
        source: None,
        message: "x".to_string(),
    };
    let r = code_actions(
        FileType::Copyright,
        "file:///debian/copyright",
        COPYRIGHT,
        whole(COPYRIGHT),
        None,
        &vec![other],
        &fields(&["Format", "Upstream-Name"]),
    );
    assert!(r.is_none());
    let matching = Diagnostic {
        range: Range { start: Position::new(0, 0), end: Position::new(0, 6) },
        severity: Some(DiagnosticSeverity::Warning),
        code: Some(NumberOrString::String("field-casing".to_string())),
        source: None,
        message: "x".to_string(),
    };
    let r = code_actions(
        FileType::Copyright,
        "file:///debian/copyright",
        COPYRIGHT,
        whole(COPYRIGHT),
        None,
        &vec![matching],
        &fields(&["Format", "Upstream-Name"]),
    );
    assert_eq!(r.unwrap().len(), 1);
}

#[test]
fn control_casing_quick_fix() {
    let text = "source: foo\nMaintainer: A <a@example.com>\n";
    let r = code_actions(
        FileType::Control,
        "file:///debian/control",
        text,
        whole(text),
        None,
        &vec![],
        &fields(&["Source", "Maintainer"]),
    )
    .unwrap();
    assert_eq!(r.len(), 1);
    let (title, _, edits) = parts(&r[0]);
    assert_eq!(title, "Fix field casing: source -> Source");
    assert_eq!(edits[0].range, Range { start: Position::new(0, 0), end: Position::new(0, 6) });
}

#[test]
fn control_range_outside_the_text_gives_nothing() {
    let text = "source: foo\n";
    let r = code_actions(
        FileType::Control,
        "file:///debian/control",
        text,
        Range { start: Position::new(5, 0), end: Position::new(6, 0) },
        None,
        &vec![],
        &fields(&["Source"]),
    );
    assert!(r.is_none());
}

const CHANGELOG: &str = "rust-foo (0.2.0-1) UNRELEASED; urgency=medium\n\n  * New changes.\n\n -- John Doe <john@example.com>  Tue, 02 Jan 2024 12:00:00 +0000\n\nrust-foo (0.1.0-1) experimental; urgency=medium\n\n  * Initial release.\n\n -- John Doe <john@example.com>  Mon, 01 Jan 2024 12:00:00 +0000\n";

#[test]
fn changelog_mark_for_upload() {
    let r = code_actions(
        FileType::Changelog,
        "file:///debian/changelog",
        CHANGELOG,
        whole(CHANGELOG),
        None,
        &vec![],
        &fields(&[]),
    )
    .unwrap();
    assert_eq!(r.len(), 1);
    let (title, kind, edits) = parts(&r[0]);
    assert_eq!(title, "Mark for upload to experimental");
    assert_eq!(kind.as_deref(), Some("refactor"));
    assert_eq!(edits[0].new_text, "experimental");
    assert_eq!(edits[0].range, Range { start: Position::new(0, 19), end: Position::new(0, 29) });
}

#[test]
fn changelog_actions_filtered_by_kind() {
    let kinds = vec!["quickfix".to_string()];
    let r = code_actions(
        FileType::Changelog,
        "file:///debian/changelog",
        CHANGELOG,
        whole(CHANGELOG),
        Some(&kinds),
        &vec![],
        &fields(&[]),
    );
    assert!(r.is_none());
}

#[test]
fn kinds_without_actions() {
    for kind in [FileType::Watch, FileType::Rules, FileType::LintianOverrides] {
        let r = code_actions(kind, "file:///debian/x", "a: b\n", whole("a: b\n"), None, &vec![], &fields(&[]));
        assert!(r.is_none());
    }
}

#[test]
fn lsp_range_to_bytes() {
    let text = "é\nab\n";
    let r = lsp_range_to_text_range(text, Range { start: Position::new(0, 1), end: Position::new(1, 1) });
    assert_eq!(r, Some(TextRange { start: 2, end: 4 }));
    let r = lsp_range_to_text_range(text, Range { start: Position::new(1, 1), end: Position::new(0, 0) });
    assert_eq!(r, None);
}
