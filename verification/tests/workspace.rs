use debian_lsp::lsp::{DiagnosticSeverity, NumberOrString, Position};
use debian_lsp::position::TextRange;
use debian_lsp::templates::fields::FieldInfo;
use debian_lsp::workspace::{
    copyright_field_casing_issues, released_target, target_distribution, unreleased_entries_in_range,
    unreleased_infos_in, Workspace,
};

fn copyright_fields() -> Vec<FieldInfo> {
    [
        "Format",
        "Upstream-Name",
        "Upstream-Contact",
        "Source",
        "Disclaimer",
        "Comment",
        "License",
        "Copyright",
        "Files",
        "Files-Excluded",
    ]
    .iter()
    .map(|n| FieldInfo { name: n, description: "" })
    .collect()
}

#[test]
fn test_workspace_update_file_reuses_input() {
    let mut workspace = Workspace::new();
    let url = "file:///debian/control".to_string();
    let file1 = workspace.update_file(url.clone(), "Source: a\n".to_string());
    let file2 = workspace.update_file(url.clone(), "Source: b\n".to_string());
    assert_eq!(file1, file2);
    assert_eq!(workspace.source_text(file2), "Source: b\n");
}

#[test]
fn distinct_uris_get_distinct_files() {
    let mut workspace = Workspace::new();
    let a = workspace.update_file("file:///a".to_string(), "A".to_string());
    let b = workspace.update_file("file:///b".to_string(), "B".to_string());
    assert_ne!(a, b);
    assert_eq!(workspace.len(), 2);
    assert_eq!(workspace.source_text(a), "A");
    assert_eq!(workspace.source_text(b), "B");
}

#[test]
fn test_copyright_field_casing_detection() {
    let mut workspace = Workspace::new();
    let content = r#"format: https://www.debian.org/doc/packaging-manuals/copyright-format/1.0/
upstream-name: test-package

files: *
copyright: 2024 Test Author
license: MIT
"#;
    let file = workspace.update_file("file:///debian/copyright".to_string(), content.to_string());
    let issues = workspace.find_copyright_field_casing_issues(file, None, &copyright_fields());
    assert!(issues.len() >= 3, "Expected at least 3 field casing issues");
    let field_names: Vec<_> = issues.iter().map(|i| i.field_name.as_str()).collect();
    assert!(field_names.contains(&"format"));
    assert!(field_names.contains(&"files"));
    assert!(field_names.contains(&"license"));
    let format = issues.iter().find(|i| i.field_name == "format").unwrap();
    assert_eq!(format.standard_name, "Format");
    assert_eq!(&content[format.field_range.start..format.field_range.end], "format");
}

#[test]
fn correct_casing_raises_no_issue() {
    let content = "Format: x\nUpstream-Name: y\n\nFiles: *\nCopyright: 2024\nLicense: MIT\n";
    assert!(copyright_field_casing_issues(content, None, &copyright_fields()).is_empty());
}

#[test]
fn casing_issues_limited_to_the_range() {
    let content = "format: x\n\nfiles: *\ncopyright: 2024\nlicense: MIT\n";
    let start = content.find("files").unwrap();
    let issues = copyright_field_casing_issues(
        content,
        Some(TextRange { start, end: start + 3 }),
        &copyright_fields(),
    );
    let names: Vec<_> = issues.iter().map(|i| i.field_name.as_str()).collect();
    assert_eq!(names, vec!["files"]);
}

#[test]
fn test_copyright_diagnostics() {
    let mut workspace = Workspace::new();
    let content = r#"format: https://www.debian.org/doc/packaging-manuals/copyright-format/1.0/
upstream-name: test

files: *
copyright: 2024 Test
license: MIT
"#;
    let file = workspace.update_file("file:///debian/copyright".to_string(), content.to_string());
    let diagnostics = workspace.get_copyright_diagnostics(file, &copyright_fields());
    assert!(!diagnostics.is_empty(), "Should have diagnostics for field casing");
    for diag in &diagnostics {
        assert_eq!(diag.severity, Some(DiagnosticSeverity::Warning));
        assert!(matches!(&diag.code, Some(NumberOrString::String(c)) if c == "field-casing"));
    }
    let first = &diagnostics[0];
    assert_eq!(first.message, "Field name 'format' should be 'Format'");
    assert_eq!(first.range.start, Position::new(0, 0));
    assert_eq!(first.range.end, Position::new(0, 6));
}

const ONE_UNRELEASED: &str = r#"rust-foo (0.2.0-1) UNRELEASED; urgency=medium

  * New changes.

 -- John Doe <john@example.com>  Tue, 02 Jan 2024 12:00:00 +0000

rust-foo (0.1.0-1) unstable; urgency=medium

  * Initial release.

 -- John Doe <john@example.com>  Mon, 01 Jan 2024 12:00:00 +0000
"#;

#[test]
fn test_find_unreleased_entries_in_range() {
    let mut workspace = Workspace::new();
    let content = ONE_UNRELEASED;
    let file = workspace.update_file("file:///debian/changelog".to_string(), content.to_string());
    let full_range = TextRange { start: 0, end: content.len() };
    let unreleased_entries = workspace.find_unreleased_entries_in_range(file, full_range);
    assert_eq!(unreleased_entries.len(), 1);
    assert_eq!(unreleased_entries[0].target_distribution, "unstable");
    let r = unreleased_entries[0].unreleased_range;
    assert_eq!(&content[r.start..r.end], "UNRELEASED");
}

#[test]
fn test_find_unreleased_entries_multiple() {
    let content = r#"rust-foo (0.3.0-1) UNRELEASED; urgency=medium

  * More new changes.

 -- John Doe <john@example.com>  Wed, 03 Jan 2024 12:00:00 +0000

rust-foo (0.2.0-1) UNRELEASED; urgency=medium

  * New changes.

 -- John Doe <john@example.com>  Tue, 02 Jan 2024 12:00:00 +0000

rust-foo (0.1.0-1) experimental; urgency=medium

  * Initial release.

 -- John Doe <john@example.com>  Mon, 01 Jan 2024 12:00:00 +0000
"#;
    let mut workspace = Workspace::new();
    let file = workspace.update_file("file:///debian/changelog".to_string(), content.to_string());
    let full_range = TextRange { start: 0, end: content.len() };
    let unreleased_entries = workspace.find_unreleased_entries_in_range(file, full_range);
    assert_eq!(unreleased_entries.len(), 2);
    assert_eq!(unreleased_entries[0].target_distribution, "experimental");
    assert_eq!(unreleased_entries[1].target_distribution, "experimental");
    for e in &unreleased_entries {
        let r = e.unreleased_range;
        assert_eq!(&content[r.start..r.end], "UNRELEASED");
    }
}

#[test]
fn test_find_unreleased_entries_partial_range() {
    let content = r#"rust-foo (0.3.0-1) UNRELEASED; urgency=medium

  * More new changes.

 -- John Doe <john@example.com>  Wed, 03 Jan 2024 12:00:00 +0000

rust-foo (0.2.0-1) UNRELEASED; urgency=medium

  * New changes.

 -- John Doe <john@example.com>  Tue, 02 Jan 2024 12:00:00 +0000

rust-foo (0.1.0-1) unstable; urgency=medium

  * Initial release.

 -- John Doe <john@example.com>  Mon, 01 Jan 2024 12:00:00 +0000
"#;
    let partial_range = TextRange { start: 0, end: 100 };
    let unreleased_entries = unreleased_entries_in_range(content, partial_range);
    assert_eq!(unreleased_entries.len(), 1);
}

#[test]
fn test_find_unreleased_entries_no_matches() {
    let content = r#"rust-foo (0.1.0-1) unstable; urgency=medium

  * Initial release.

 -- John Doe <john@example.com>  Mon, 01 Jan 2024 12:00:00 +0000
"#;
    let full_range = TextRange { start: 0, end: content.len() };
    assert_eq!(unreleased_entries_in_range(content, full_range).len(), 0);
}

#[test]
fn series_of_an_open_document() {
    let mut workspace = Workspace::new();
    let file = workspace.update_file(
        "file:///debian/patches/series".to_string(),
        "a.patch\n# c\nb.patch -p0\n".to_string(),
    );
    let series = workspace.get_parsed_patches_series(file);
    assert_eq!(series.entries.len(), 3);
}

#[test]
fn target_distribution_is_that_of_the_newest_released_entry() {
    let content = "rust-foo (0.2.0-1) UNRELEASED; urgency=medium\n\n  * New.\n\n -- J D <j@example.com>  Tue, 02 Jan 2024 12:00:00 +0000\n\nrust-foo (0.1.1-1) bookworm; urgency=medium\n\n  * Fix.\n\n -- J D <j@example.com>  Mon, 01 Jan 2024 12:00:00 +0000\n\nrust-foo (0.1.0-1) experimental; urgency=medium\n\n  * Initial.\n\n -- J D <j@example.com>  Sun, 31 Dec 2023 12:00:00 +0000\n";
    assert_eq!(target_distribution(content), "bookworm");
}

#[test]
fn target_distribution_defaults_to_unstable() {
    let content = "rust-foo (0.1.0-1) UNRELEASED; urgency=medium\n\n  * Initial.\n\n -- J D <j@example.com>  Mon, 01 Jan 2024 12:00:00 +0000\n";
    assert_eq!(target_distribution(content), "unstable");
    let mut workspace = Workspace::new();
    let file = workspace.update_file("file:///debian/changelog".to_string(), content.to_string());
    let infos = workspace.find_unreleased_entries_in_range(file, TextRange { start: 0, end: content.len() });
    assert_eq!(infos.len(), 1);
    assert_eq!(infos[0].target_distribution, "unstable");
}

#[test]
fn range_issues_are_a_subsequence_of_the_file_issues() {
    let content = "format: x\nupstream-name: foo\n\nfiles: *\ncopyright: 2024 A\nlicense: MIT\n";
    let all = copyright_field_casing_issues(content, None, &copyright_fields());
    let some = copyright_field_casing_issues(
        content,
        Some(TextRange { start: 10, end: 30 }),
        &copyright_fields(),
    );
    assert!(some.len() < all.len());
    let mut j = 0;
    for issue in &some {
        while all[j].field_name != issue.field_name {
            j += 1;
        }
        j += 1;
    }
    let whole = copyright_field_casing_issues(
        content,
        Some(TextRange { start: 0, end: content.len() }),
        &copyright_fields(),
    );
    let names = |v: &Vec<debian_lsp::workspace::FieldCasingIssue>| {
        v.iter().map(|i| i.field_name.clone()).collect::<Vec<_>>()
    };
    assert_eq!(names(&whole), names(&all));
}

#[test]
fn copyright_diagnostics_report_the_casing_issues() {
    let content = "format: x\nupstream-name: foo\n\nfiles: *\ncopyright: 2024 A\nlicense: MIT\n";
    let mut ws = Workspace::new();
    let file = ws.update_file("file:///debian/copyright".to_string(), content.to_string());
    let issues = ws.find_copyright_field_casing_issues(file, None, &copyright_fields());
    let result = ws.get_copyright_diagnostics(file, &copyright_fields());
    assert_eq!(result.len(), issues.len());
    assert!(result.len() >= 2);
    for (d, i) in result.iter().zip(issues.iter()) {
        assert_eq!(
            d.message,
            format!("Field name '{}' should be '{}'", i.field_name, i.standard_name)
        );
        assert_eq!(
            d.range,
            debian_lsp::position::text_range_to_lsp_range(
                content,
                i.field_range.start,
                i.field_range.end
            )
        );
        assert_eq!(d.source, Some("debian-lsp".to_string()));
    }
}

#[test]
fn released_target_skips_unreleased_and_undistributed_entries() {
    let entries = vec![
        (0usize, "a".to_string(), Some(vec!["UNRELEASED".to_string()])),
        (10usize, "b".to_string(), None),
        (20usize, "c".to_string(), Some(vec!["bullseye".to_string(), "x".to_string()])),
        (30usize, "d".to_string(), Some(vec!["unstable".to_string()])),
    ];
    assert_eq!(released_target(&entries), "bullseye");
    assert_eq!(released_target(&vec![]), "unstable");
}

#[test]
fn unreleased_infos_point_at_the_marker() {
    let entries = vec![
        (5usize, "p (1) UNRELEASED; urgency=low\n".to_string(), Some(vec!["UNRELEASED".to_string()])),
        (40usize, "p (0) unstable; urgency=low\n".to_string(), Some(vec!["unstable".to_string()])),
    ];
    let infos = unreleased_infos_in(&entries, "sid");
    assert_eq!(infos.len(), 1);
    assert_eq!(infos[0].unreleased_range, TextRange { start: 11, end: 21 });
    assert_eq!(infos[0].target_distribution, "sid");
}
