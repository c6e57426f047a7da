use debian_lsp::debhelper::diagnostics::{
    entries, find_duplicate_entries, get_diagnostics, issue_to_diagnostic, is_comment_line,
    line_range, DiagnosticIssue, LineShape,
};
use debian_lsp::debhelper::install::is_install_file;
use debian_lsp::debhelper::links::{
    join, package_candidates, package_dir, package_name, token_dir_of, is_links_file,
};
use debian_lsp::debhelper::not_installed::is_not_installed_file;
use debian_lsp::lsp::{CompletionItemKind, DiagnosticSeverity, NumberOrString, Position, Range};

fn issues_with(text: &str, shape: LineShape) -> Vec<DiagnosticIssue> {
    find_duplicate_entries(text, shape, |e: &str| e.to_string())
}

fn issues(text: &str) -> Vec<DiagnosticIssue> {
    issues_with(text, LineShape::Words)
}

#[test]
fn repeated_entry_is_flagged() {
    let diags = issues("usr/share/myapp\nusr/share/myapp\n");
    assert!(diags
        .iter()
        .any(|d| matches!(d, DiagnosticIssue::DuplicateEntry { .. })));
}

#[test]
fn distinct_entries_are_clean() {
    assert!(issues("usr/share/myapp\nusr/lib/myapp\n").is_empty());
}

#[test]
fn blank_lines_and_comments_are_ignored() {
    assert!(issues("\n# a comment\nusr/share/myapp\n").is_empty());
}

#[test]
fn a_word_repeated_on_one_line_is_flagged() {
    let diags = issues("usr/bin usr/bin\n");
    assert_eq!(diags.len(), 1);
}

#[test]
fn internal_whitespace_does_not_split_an_entry() {
    let diags = issues_with("foo   usr/bin\nfoo usr/bin\n", LineShape::WordsWithDestination);
    assert_eq!(diags.len(), 1);
    let DiagnosticIssue::DuplicateEntry { path, .. } = &diags[0];
    assert_eq!(path, "foo usr/bin");
}

#[test]
fn a_source_installed_twice_into_the_same_place_is_flagged() {
    let diags = issues_with("foo bar usr/bin\nfoo usr/bin\n", LineShape::WordsWithDestination);
    assert_eq!(diags.len(), 1);
    let DiagnosticIssue::DuplicateEntry { path, .. } = &diags[0];
    assert_eq!(path, "foo usr/bin");
}

#[test]
fn the_same_source_in_another_destination_is_clean() {
    assert!(issues_with("foo usr/bin\nfoo usr/lib\n", LineShape::WordsWithDestination).is_empty());
}

#[test]
fn a_lone_source_has_no_destination() {
    assert!(issues_with("foo\nfoo usr/bin\n", LineShape::WordsWithDestination).is_empty());
}

#[test]
fn normalize_key_controls_what_collides() {
    let text = "Foo\nfoo\n";
    let diags = find_duplicate_entries(text, LineShape::Words, |e: &str| e.to_lowercase());
    assert_eq!(diags.len(), 1);
}

#[test]
fn duplicate_issue_names_the_line() {
    let diags = issues("a\nb\n  a\n");
    assert_eq!(diags.len(), 1);
    let DiagnosticIssue::DuplicateEntry { path, range } = &diags[0];
    assert_eq!(path, "a");
    assert_eq!(*range, Range::new(Position::new(2, 0), Position::new(2, 3)));
}

#[test]
fn each_repeat_is_reported_once() {
    assert_eq!(issues("x\nx\nx\ny\n").len(), 2);
}

#[test]
fn indented_comment_is_ignored() {
    assert!(issues("  # usr/bin\nusr/bin\n").is_empty());
    assert!(is_comment_line("   # note"));
    assert!(!is_comment_line("usr/bin # note"));
}

#[test]
fn line_range_counts_utf16_units() {
    let text = "a\u{1F600}b\nxy\n";
    assert_eq!(line_range(text, 0), Range::new(Position::new(0, 0), Position::new(0, 4)));
    assert_eq!(line_range(text, 1), Range::new(Position::new(1, 0), Position::new(1, 2)));
    assert_eq!(line_range(text, 5), Range::new(Position::new(5, 0), Position::new(5, 0)));
}

#[test]
fn entries_with_destination_pair_each_source() {
    let e = entries(&["a", "b", "dest"], LineShape::WordsWithDestination);
    assert_eq!(e, vec![("a", Some("dest")), ("b", Some("dest"))]);
    let single = entries(&["only"], LineShape::WordsWithDestination);
    assert_eq!(single, vec![("only", None)]);
    let words = entries(&["a", "b"], LineShape::Words);
    assert_eq!(words, vec![("a", None), ("b", None)]);
}

#[test]
fn duplicate_diagnostic_fields() {
    let text = "usr/bin\nusr/bin\n";
    let diags = get_diagnostics(text, LineShape::Words, |e: &str| e.to_string());
    assert_eq!(diags.len(), 1);
    let d = &diags[0];
    assert_eq!(d.severity, Some(DiagnosticSeverity::Warning));
    assert!(matches!(&d.code, Some(NumberOrString::String(c)) if c == "duplicate-entry"));
    assert_eq!(d.source.as_deref(), Some("debian-lsp"));
    assert_eq!(d.message, "Duplicate entry 'usr/bin'");
    assert_eq!(d.range, Range::new(Position::new(1, 0), Position::new(1, 7)));
}

#[test]
fn issue_to_diagnostic_quotes_the_entry() {
    let issue = DiagnosticIssue::DuplicateEntry {
        path: "foo usr/bin".to_string(),
        range: Range::new(Position::new(3, 0), Position::new(3, 11)),
    };
    let d = issue_to_diagnostic(issue);
    assert_eq!(d.message, "Duplicate entry 'foo usr/bin'");
    assert_eq!(d.range.start.line, 3);
}

#[test]
fn detects_qualified_and_unqualified() {
    assert!(is_install_file("file:///p/debian/install"));
    assert!(is_install_file("file:///p/debian/mypkg.install"));
}

#[test]
fn rejects_other_files() {
    assert!(!is_install_file("file:///p/debian/control"));
    assert!(!is_install_file("file:///p/install"));
    assert!(!is_install_file("file:///p/debian/install.bak"));
}

#[test]
fn links_detects_qualified_and_unqualified() {
    assert!(is_links_file("file:///p/debian/links"));
    assert!(is_links_file("file:///p/debian/mypkg.links"));
}

#[test]
fn links_rejects_other_files() {
    assert!(!is_links_file("file:///p/debian/control"));
    assert!(!is_links_file("file:///p/links"));
    assert!(!is_links_file("file:///p/debian/links.bak"));
}

#[test]
fn package_dir_uses_the_package_name() {
    let debian = "/p/debian";
    assert_eq!(package_dir(debian, "file:///p/debian/mypkg.links"), "/p/debian/mypkg");
    assert_eq!(package_dir(debian, "file:///p/debian/links"), "/p/debian/tmp");
}

#[test]
fn not_installed_detects_qualified_and_unqualified() {
    assert!(is_not_installed_file("file:///p/debian/not-installed"));
    assert!(is_not_installed_file("file:///p/debian/mypkg.not-installed"));
}

#[test]
fn not_installed_rejects_other_files() {
    assert!(!is_not_installed_file("file:///p/debian/control"));
    assert!(!is_not_installed_file("file:///p/not-installed"));
    assert!(!is_not_installed_file("file:///p/debian/not-installed.bak"));
}

#[test]
fn links_package_name_from_the_file_name() {
    assert_eq!(package_name("file:///p/debian/mypkg.links").as_deref(), Some("mypkg"));
    assert_eq!(package_name("file:///p/debian/links"), None);
    assert_eq!(package_name("file:///p/debian/.links"), None);
}

#[test]
fn join_inserts_one_separator() {
    assert_eq!(join("/p/debian", "tmp"), "/p/debian/tmp");
    assert_eq!(join("/p/debian/", "tmp"), "/p/debian/tmp");
    assert_eq!(join("", "tmp"), "tmp");
}

#[test]
fn token_dir_is_up_to_the_last_slash() {
    assert_eq!(token_dir_of("usr/share/fo"), "usr/share/");
    assert_eq!(token_dir_of("usr"), "");
}

fn listing(entries: &[(&str, bool)]) -> Vec<(String, bool)> {
    entries.iter().map(|(n, d)| (n.to_string(), *d)).collect()
}

#[test]
fn package_candidates_sorted_and_filtered() {
    let l = listing(&[("share", true), ("bin", true), ("sbin", true), ("README", false)]);
    let items = package_candidates("usr/s", &l);
    let labels: Vec<&str> = items.iter().map(|i| i.label.as_str()).collect();
    assert_eq!(labels, vec!["usr/sbin/", "usr/share/"]);
    assert!(items.iter().all(|i| i.kind == Some(CompletionItemKind::Folder)));
}

#[test]
fn package_candidates_files_and_dirs() {
    let l = listing(&[("prog", false), ("lib", true)]);
    let items = package_candidates("usr/bin/", &l);
    let labels: Vec<&str> = items.iter().map(|i| i.label.as_str()).collect();
    assert_eq!(labels, vec!["usr/bin/lib/", "usr/bin/prog"]);
    assert_eq!(items[1].kind, Some(CompletionItemKind::File));
}

#[test]
fn package_candidates_none_matching() {
    let l = listing(&[("etc", true)]);
    assert!(package_candidates("usr", &l).is_empty());
}

#[test]
fn diagnostics_are_the_duplicates_mapped() {
    let text = "a\nb\na\nb\nc\n";
    let issues = find_duplicate_entries(text, LineShape::Words, |e: &str| e.to_string());
    let diags = get_diagnostics(text, LineShape::Words, |e: &str| e.to_string());
    let mapped: Vec<_> = issues.into_iter().map(issue_to_diagnostic).collect();
    assert_eq!(diags.len(), 2);
    assert_eq!(diags.len(), mapped.len());
    for (d, m) in diags.iter().zip(mapped.iter()) {
        assert_eq!(d.range, m.range);
        assert_eq!(d.message, m.message);
        assert_eq!(d.severity, m.severity);
    }
}
