use debian_lsp::formatting::{format_deb822, format_edits};
use debian_lsp::lsp::{Position, Range};

#[test]
fn test_format_edits_unchanged_text_gives_none() {
    assert!(format_edits("Tests: foo\n", "Tests: foo\n".to_string()).is_none());
}

#[test]
fn test_format_edits_replaces_whole_text() {
    let edits = format_edits("Tests: foo\nDepends: a\n", "Tests: foo\n".to_string()).unwrap();
    assert_eq!(edits.len(), 1);
    assert_eq!(
        edits[0].range,
        Range { start: Position { line: 0, character: 0 }, end: Position { line: 2, character: 0 } }
    );
    assert_eq!(edits[0].new_text, "Tests: foo\n");
}

#[test]
fn test_format_edits_end_counts_utf16_units() {
    let edits = format_edits("Tests: é", "Tests: e".to_string()).unwrap();
    assert_eq!(edits[0].range.end, Position { line: 0, character: 8 });
}

#[test]
fn test_format_deb822_formatted_text_unchanged() {
    assert!(format_deb822("Tests: foo\nDepends: bar\n").is_none());
}

#[test]
fn test_format_deb822_reindents_continuation_lines() {
    let text = "Tests: foo\nDepends: a,\n    b\n";
    let edits = format_deb822(text).unwrap();
    assert_eq!(edits.len(), 1);
    assert_eq!(
        edits[0].range,
        Range { start: Position { line: 0, character: 0 }, end: Position { line: 3, character: 0 } }
    );
    assert_eq!(edits[0].new_text, "Tests: foo\nDepends: a,\n b\n");
}

#[test]
fn test_format_deb822_collapses_blank_lines_between_paragraphs() {
    let edits = format_deb822("Tests: a\n\n\nTests: b\n").unwrap();
    assert_eq!(edits[0].new_text, "Tests: a\n\nTests: b\n");
}

#[test]
fn test_format_deb822_leaves_text_with_parse_errors() {
    assert!(format_deb822("Tests: a\n-x\n").is_none());
}
