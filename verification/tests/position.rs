use debian_lsp::lsp::{Position, Range};
use debian_lsp::position::{offset_at, offset_to_position, text_range_to_lsp_range};
use debian_lsp::text::{lines_of, split_words, utf16_len_of};

#[test]
fn offsets_to_positions() {
    let text = "ab\n\u{e9}t\u{e9}\nz";
    assert_eq!(offset_to_position(text, 0), Position::new(0, 0));
    assert_eq!(offset_to_position(text, 3), Position::new(1, 0));
    assert_eq!(offset_to_position(text, 5), Position::new(1, 1));
    assert_eq!(offset_to_position(text, 9), Position::new(2, 0));
    assert_eq!(
        text_range_to_lsp_range(text, 0, 2),
        Range::new(Position::new(0, 0), Position::new(0, 2))
    );
}

#[test]
fn positions_to_byte_offsets() {
    let text = "foo: bar\nbaz\n";
    assert_eq!(offset_at(text, Position::new(1, 2)), 11);
    assert_eq!(offset_at(text, Position::new(0, 50)), 9);
}

#[test]
fn words_and_lines() {
    assert_eq!(split_words("  a\tbb  c "), vec!["a", "bb", "c"]);
    assert_eq!(lines_of("x\r\ny\n\nz"), vec!["x", "y", "", "z"]);
    assert_eq!(utf16_len_of("a\u{1F600}"), 3);
}
