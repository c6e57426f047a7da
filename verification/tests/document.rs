use debian_lsp::document::{apply_content_changes, ContentChange};
use debian_lsp::lsp::{Position, Range};

fn change(range: Option<Range>, text: &str) -> ContentChange {
    ContentChange { range, text: text.to_string() }
}

fn edit(text: &str, range: Range, new_text: &str) -> String {
    apply_content_changes(text.to_string(), &vec![change(Some(range), new_text)])
}

#[test]
fn test_incremental_edit_apply() {
    let text = "Source: test\nMaintainer: Alice\n";
    let range = Range::new(Position::new(0, 8), Position::new(0, 12));
    assert_eq!(edit(text, range, "hello"), "Source: hello\nMaintainer: Alice\n");
}

#[test]
fn test_incremental_edit_insert() {
    let range = Range::new(Position::new(0, 12), Position::new(0, 12));
    assert_eq!(edit("Source: test\n", range, "-pkg"), "Source: test-pkg\n");
}

#[test]
fn test_incremental_edit_delete() {
    let range = Range::new(Position::new(0, 8), Position::new(0, 16));
    assert_eq!(edit("Source: test-pkg\n", range, ""), "Source: \n");
}

#[test]
fn test_incremental_edit_multiline() {
    let text = "Source: test\nMaintainer: Alice\nPriority: optional\n";
    let range = Range::new(Position::new(1, 0), Position::new(2, 0));
    assert_eq!(
        edit(text, range, "Maintainer: Bob\n"),
        "Source: test\nMaintainer: Bob\nPriority: optional\n"
    );
}

#[test]
fn full_replacement_and_sequence() {
    let changes = vec![
        change(None, "abc\n"),
        change(Some(Range::new(Position::new(0, 1), Position::new(0, 2))), "XY"),
        change(Some(Range::new(Position::new(1, 0), Position::new(1, 0))), "end"),
    ];
    assert_eq!(apply_content_changes("old".to_string(), &changes), "aXYc\nend");
}

#[test]
fn columns_count_utf16_units() {
    let text = "\u{1F600}x\n";
    let range = Range::new(Position::new(0, 2), Position::new(0, 3));
    assert_eq!(edit(text, range, "y"), "\u{1F600}y\n");
}

#[test]
fn missing_line_leaves_text_unchanged() {
    let range = Range::new(Position::new(5, 0), Position::new(5, 1));
    assert_eq!(edit("one\n", range, "z"), "one\n");
}

#[test]
fn column_past_line_end_stops_at_the_end() {
    let range = Range::new(Position::new(0, 40), Position::new(0, 40));
    assert_eq!(edit("ab\ncd\n", range, "!"), "ab!\ncd\n");
}
