use debian_lsp::control::definition::{
    find_binary_package_location, find_package_at_offset as control_package_at_offset,
    locate_binary_package, package_in_tokens, BinaryParagraph,
};
use debian_lsp::lsp::{Position, Range};
use debian_lsp::tests_control::definition::{
    find_package_at_offset, find_test_name_at_offset, package_in_spans,
};

#[test]
fn test_find_test_name_at_offset_simple() {
    let name = find_test_name_at_offset("smoke integration", 8);
    assert_eq!(name.as_deref(), Some("integration"));
}

#[test]
fn test_find_test_name_at_offset_first() {
    let name = find_test_name_at_offset("smoke integration", 2);
    assert_eq!(name.as_deref(), Some("smoke"));
}

#[test]
fn test_find_test_name_at_offset_mid_token_resolves_full() {
    let name = find_test_name_at_offset("file1 file2", 2);
    assert_eq!(name.as_deref(), Some("file1"));
}

#[test]
fn test_name_at_separator_or_end_is_none() {
    assert_eq!(find_test_name_at_offset("smoke integration", 5), None);
    assert_eq!(find_test_name_at_offset("smoke integration", 17), None);
    assert_eq!(find_test_name_at_offset("a\nb", 1), None);
}

#[test]
fn test_name_across_lines() {
    assert_eq!(find_test_name_at_offset("smoke\n integration", 7).as_deref(), Some("integration"));
    assert_eq!(find_test_name_at_offset("\u{e9}t\u{e9} x", 2).as_deref(), Some("\u{e9}t\u{e9}"));
}

#[test]
fn test_find_package_at_offset_simple() {
    let name = find_package_at_offset("debhelper, foo-dev", 12);
    assert_eq!(name.as_deref(), Some("foo-dev"));
}

#[test]
fn test_find_package_at_offset_first() {
    let name = find_package_at_offset("debhelper, foo-dev", 3);
    assert_eq!(name.as_deref(), Some("debhelper"));
}

#[test]
fn test_find_package_at_offset_with_version() {
    let name = find_package_at_offset("debhelper-compat (= 13), foo-dev", 26);
    assert_eq!(name.as_deref(), Some("foo-dev"));
}

#[test]
fn definition_test_find_package_at_offset_simple() {
    let name = control_package_at_offset("debhelper, foo-dev", 12);
    assert_eq!(name.as_deref(), Some("foo-dev"));
}

#[test]
fn definition_test_find_package_at_offset_first() {
    let name = control_package_at_offset("debhelper, foo-dev", 3);
    assert_eq!(name.as_deref(), Some("debhelper"));
}

#[test]
fn definition_test_find_package_at_offset_with_version() {
    let name = control_package_at_offset("debhelper-compat (= 13), foo-dev", 26);
    assert_eq!(name.as_deref(), Some("foo-dev"));
}

#[test]
fn package_in_spans_takes_the_first_covering_relation() {
    let spans = vec![
        (0, 9, Some("debhelper".to_string())),
        (9, 18, Some("foo-dev".to_string())),
    ];
    assert_eq!(package_in_spans(&spans, 9).as_deref(), Some("debhelper"));
    assert_eq!(package_in_spans(&spans, 12).as_deref(), Some("foo-dev"));
    assert_eq!(package_in_spans(&spans, 30), None);
    let unnamed = vec![(0, 4, None), (0, 9, Some("x".to_string()))];
    assert_eq!(package_in_spans(&unnamed, 2), None);
}

#[test]
fn package_in_tokens_needs_an_ident_under_a_relation() {
    let tokens = vec![
        // IDENT is kind 0, RELATION kind 21, ARCHQUAL kind 22, L_PARENS kind 4.
        (0, 3, 0u16, Some(22u16), "arch".to_string()),
        (0, 3, 4u16, Some(21u16), "(".to_string()),
        (0, 3, 0u16, Some(21u16), "pkg".to_string()),
    ];
    assert_eq!(package_in_tokens(&tokens, 1).as_deref(), Some("pkg"));
    assert_eq!(package_in_tokens(&tokens, 4), None);
}

fn para(name: Option<&str>, line: u32) -> BinaryParagraph {
    BinaryParagraph {
        name: name.map(|n| n.to_string()),
        range: Range::new(Position::new(line, 0), Position::new(line + 2, 0)),
    }
}

#[test]
fn binary_location_names_the_paragraph() {
    let binaries = vec![para(Some("foo"), 3), para(None, 6), para(Some("foo-dev"), 8)];
    let loc = find_binary_package_location(&binaries, "file:///tmp/debian/control", "foo-dev")
        .expect("found");
    assert_eq!(loc.uri, "file:///tmp/debian/control");
    assert_eq!(loc.range.start.line, 8);
    assert!(find_binary_package_location(&binaries, "u", "bar").is_none());
}

#[test]
fn definition_test_goto_definition_in_depends() {
    let control = "\
Source: mypkg
Maintainer: Test <test@example.com>

Package: mypkg
Architecture: any
Description: My package
";
    let loc = locate_binary_package(control, "file:///p/debian/control", "mypkg").expect("found");
    assert_eq!(loc.uri, "file:///p/debian/control");
    assert_eq!(loc.range.start.line, 3);
}

#[test]
fn definition_test_goto_definition_external_package() {
    let control = "\
Source: mypkg
Maintainer: Test <test@example.com>

Package: mypkg
Architecture: any
Description: My package
";
    assert!(locate_binary_package(control, "file:///p/debian/control", "debhelper").is_none());
}

#[test]
fn binary_location_of_the_second_package() {
    let control = "\
Source: mypackage
Maintainer: Test <test@example.com>
Build-Depends: debhelper, mypackage-dev

Package: mypackage
Architecture: any
Depends: mypackage-dev
Description: Main package

Package: mypackage-dev
Architecture: any
Description: Development files
";
    let loc = locate_binary_package(control, "u", "mypackage-dev").expect("found");
    assert_eq!(loc.range.start.line, 9);
    assert_eq!(loc.range.start.character, 0);
}

use debian_lsp::tests_control::definition::tests_directory;

#[test]
fn tests_directory_defaults_to_debian_tests() {
    assert_eq!(tests_directory("/src/pkg", None), "/src/pkg/debian/tests");
    assert_eq!(tests_directory("/src/pkg", Some(" t ")), "/src/pkg/t");
    assert_eq!(tests_directory("/src/pkg", Some("/abs/dir")), "/abs/dir");
}
