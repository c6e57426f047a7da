use debian_lsp::file_type::FileType;

#[test]
fn test_changelog_file_type_detection() {
    assert_eq!(FileType::detect("file:///path/to/debian/changelog"), Some(FileType::Changelog));
    assert_eq!(FileType::detect("file:///path/to/debian/control"), Some(FileType::Control));
}

#[test]
fn test_upstream_metadata_file_type_detection() {
    assert_eq!(
        FileType::detect("file:///path/to/debian/upstream/metadata"),
        Some(FileType::UpstreamMetadata)
    );
    assert_eq!(FileType::detect("file:///path/to/upstream/metadata"), None);
}

#[test]
fn test_source_options_file_type_detection() {
    assert_eq!(
        FileType::detect("file:///path/to/debian/source/options"),
        Some(FileType::SourceOptions)
    );
    assert_eq!(
        FileType::detect("file:///path/to/debian/source/local-options"),
        Some(FileType::SourceOptions)
    );
    assert_eq!(FileType::detect("file:///path/to/debian/options"), None);
}

#[test]
fn tests_control_before_control() {
    assert_eq!(FileType::detect("file:///p/debian/tests/control"), Some(FileType::TestsControl));
    assert_eq!(FileType::detect("file:///p/debian/copyright"), Some(FileType::Copyright));
    assert_eq!(FileType::detect("file:///p/debian/watch"), Some(FileType::Watch));
    assert_eq!(FileType::detect("file:///p/debian/rules"), Some(FileType::Rules));
    assert_eq!(FileType::detect("file:///p/debian/source/format"), Some(FileType::SourceFormat));
    assert_eq!(FileType::detect("file:///p/debian/debcargo.toml"), Some(FileType::DebcargoToml));
}

#[test]
fn lintian_overrides_files() {
    assert_eq!(
        FileType::detect("file:///p/debian/source/lintian-overrides"),
        Some(FileType::LintianOverrides)
    );
    assert_eq!(
        FileType::detect("file:///p/debian/mypkg.lintian-overrides"),
        Some(FileType::LintianOverrides)
    );
}

#[test]
fn series_before_patches() {
    assert_eq!(FileType::detect("file:///p/debian/patches/series"), Some(FileType::PatchesSeries));
    assert_eq!(FileType::detect("file:///p/debian/patches/fix.patch"), Some(FileType::Patch));
    assert_eq!(FileType::detect("file:///p/debian/patches/sub/fix.diff"), Some(FileType::Patch));
    assert_eq!(FileType::detect("file:///p/debian/patches/"), None);
    assert_eq!(FileType::detect("file:///p/README"), None);
}
