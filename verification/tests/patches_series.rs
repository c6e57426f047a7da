use debian_lsp::lsp::{CompletionItemKind, Position};
use debian_lsp::patches_series::completion::{
    get_completions, get_patch_file_completions, get_strip_option_completions,
};
use debian_lsp::patches_series::detection::is_patches_series_file;
use debian_lsp::patches_series::series::{listed_patches, parse_patches_series, Series, SeriesEntry};

fn make_series(patches: &[&str]) -> Series {
    Series {
        entries: patches
            .iter()
            .map(|name| SeriesEntry::Patch {
                name: name.to_string(),
                options: vec![],
            })
            .collect(),
    }
}

fn empty_series() -> Series {
    Series { entries: vec![] }
}

fn strings(v: &[&str]) -> Vec<String> {
    v.iter().map(|s| s.to_string()).collect()
}

#[test]
fn test_strip_option_completions_after_space() {
    let series = make_series(&["fix-arm.patch"]);
    let completions = get_completions(&series, "fix-arm.patch ", Position::new(0, 14), &vec![]);
    let labels: Vec<&str> = completions.iter().map(|c| c.label.as_str()).collect();
    assert_eq!(labels, vec!["-p0", "-p1", "-p2"]);
    assert!(completions.iter().all(|c| c.kind == Some(CompletionItemKind::Value)));
}

#[test]
fn test_strip_option_completions_have_details() {
    let series = make_series(&["fix-arm.patch"]);
    let completions = get_completions(&series, "fix-arm.patch ", Position::new(0, 14), &vec![]);
    let p0 = completions.iter().find(|c| c.label == "-p0").unwrap();
    let p1 = completions.iter().find(|c| c.label == "-p1").unwrap();
    let p2 = completions.iter().find(|c| c.label == "-p2").unwrap();
    assert_eq!(p0.detail.as_deref(), Some("No path stripping"));
    assert_eq!(p1.detail.as_deref(), Some("Strip 1 path component (default)"));
    assert_eq!(p2.detail.as_deref(), Some("Strip 2 path components"));
}

#[test]
fn test_no_completions_when_patch_and_option_present() {
    let series = make_series(&["fix-arm.patch"]);
    let completions = get_completions(&series, "fix-arm.patch -p1 ", Position::new(0, 18), &vec![]);
    assert!(completions.is_empty());
}

#[test]
fn test_no_completions_when_two_tokens() {
    let series = make_series(&["fix-arm.patch"]);
    let completions = get_completions(&series, "fix-arm.patch -p1", Position::new(0, 17), &vec![]);
    assert!(completions.is_empty());
}

#[test]
fn test_patch_file_completions_excludes_already_listed() {
    let patch_files = strings(&["fix-arm.patch", "fix-mips.patch", "CVE-2024.patch"]);
    let already_listed = strings(&["fix-arm.patch"]);
    let completions = get_patch_file_completions(&patch_files, &already_listed);
    let labels: Vec<&str> = completions.iter().map(|c| c.label.as_str()).collect();
    assert!(!labels.contains(&"fix-arm.patch"));
    assert!(labels.contains(&"fix-mips.patch"));
    assert!(labels.contains(&"CVE-2024.patch"));
}

#[test]
fn test_patch_file_completions_sorted() {
    let patch_files = strings(&["zzz.patch", "aaa.patch", "mmm.patch"]);
    let completions = get_patch_file_completions(&patch_files, &vec![]);
    let labels: Vec<&str> = completions.iter().map(|c| c.label.as_str()).collect();
    assert_eq!(labels, vec!["aaa.patch", "mmm.patch", "zzz.patch"]);
}

#[test]
fn test_patch_file_completions_have_file_kind() {
    let patch_files = strings(&["fix-arm.patch"]);
    let completions = get_patch_file_completions(&patch_files, &vec![]);
    assert!(completions.iter().all(|c| c.kind == Some(CompletionItemKind::File)));
}

#[test]
fn test_patch_file_completions_all_listed_returns_empty() {
    let patch_files = strings(&["fix-arm.patch", "fix-mips.patch"]);
    let already_listed = patch_files.clone();
    let completions = get_patch_file_completions(&patch_files, &already_listed);
    assert!(completions.is_empty());
}

#[test]
fn test_get_strip_option_completions_count() {
    assert_eq!(get_strip_option_completions().len(), 3);
}

#[test]
fn test_get_strip_option_completions_labels() {
    let completions = get_strip_option_completions();
    let labels: Vec<&str> = completions.iter().map(|c| c.label.as_str()).collect();
    assert_eq!(labels, vec!["-p0", "-p1", "-p2"]);
}

#[test]
fn test_no_strip_options_without_space() {
    let series = empty_series();
    let completions = get_completions(&series, "fix-arm", Position::new(0, 7), &vec![]);
    let labels: Vec<&str> = completions.iter().map(|c| c.label.as_str()).collect();
    assert!(!labels.contains(&"-p0"));
    assert!(!labels.contains(&"-p1"));
    assert!(!labels.contains(&"-p2"));
}

#[test]
fn test_is_patches_series_file() {
    for path in ["file:///path/to/debian/patches/series", "file:///project/debian/patches/series"] {
        assert!(is_patches_series_file(path), "Should detect: {}", path);
    }
    for path in [
        "file:///path/to/other.txt",
        "file:///path/to/debian/control",
        "file:///path/to/debian/copyright",
        "file:///path/to/debian/watch",
        "file:///path/to/patches/series",
        "file:///path/to/debian/tests/control.backup",
    ] {
        assert!(!is_patches_series_file(path), "Should not detect: {}", path);
    }
}

#[test]
fn patch_completions_skip_listed_patches_of_the_series() {
    let series = make_series(&["a.patch"]);
    let files = strings(&["b.patch", "a.patch"]);
    let completions = get_completions(&series, "", Position::new(0, 0), &files);
    let labels: Vec<&str> = completions.iter().map(|c| c.label.as_str()).collect();
    assert_eq!(labels, vec!["b.patch"]);
    assert_eq!(completions[0].detail.as_deref(), Some("Patch file"));
}

#[test]
fn parse_series_reads_patches_options_and_comments() {
    let series = parse_patches_series("# leading comment\n\n  fix-arm.patch -p1 \nfix-mips.patch\n");
    assert_eq!(series.entries.len(), 3);
    match &series.entries[0] {
        SeriesEntry::Comment(c) => assert_eq!(c, "# leading comment"),
        _ => panic!("expected a comment"),
    }
    match &series.entries[1] {
        SeriesEntry::Patch { name, options } => {
            assert_eq!(name, "fix-arm.patch");
            assert_eq!(options, &vec!["-p1".to_string()]);
        }
        _ => panic!("expected a patch"),
    }
    assert_eq!(listed_patches(&series), strings(&["fix-arm.patch", "fix-mips.patch"]));
}

#[test]
fn parse_empty_series() {
    assert!(parse_patches_series("").entries.is_empty());
    assert!(parse_patches_series("\n  \n").entries.is_empty());
}
