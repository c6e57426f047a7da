use debian_lsp::changelog::{changelog_version, package_status, status_from_head};
use debian_lsp::settings::Settings;
use debian_lsp::substvars::read_substvars;

const CHANGELOG: &str = r#"rust-foo (0.2.0-1) unstable; urgency=medium

  * New upstream release.

 -- John Doe <john@example.com>  Tue, 02 Jan 2024 12:00:00 +0000

rust-foo (0.1.0-1) unstable; urgency=medium

  * Initial release.

 -- John Doe <john@example.com>  Mon, 01 Jan 2024 12:00:00 +0000
"#;

#[test]
fn status_is_the_first_entry() {
    let status = package_status(CHANGELOG).expect("status");
    assert_eq!(status.name, "rust-foo");
    assert_eq!(status.version, "0.2.0-1");
    assert_eq!(changelog_version(CHANGELOG).as_deref(), Some("0.2.0-1"));
}

#[test]
fn empty_changelog_has_no_status() {
    assert!(package_status("").is_none());
    assert!(changelog_version("").is_none());
}

#[test]
fn status_needs_name_and_version() {
    assert!(status_from_head(Some((Some("p".to_string()), None))).is_none());
    assert!(status_from_head(None).is_none());
    let s = status_from_head(Some((Some("p".to_string()), Some("1".to_string())))).unwrap();
    assert_eq!((s.name.as_str(), s.version.as_str()), ("p", "1"));
}

#[test]
fn substvars_first_definition_wins() {
    let mut vars = vec![("misc:Depends".to_string(), "kept".to_string())];
    read_substvars(
        "shlibs:Depends=libc6 (>= 2.34)\nmisc:Depends=new\nnot a variable\nshlibs:Depends=other\nempty=\n",
        &mut vars,
    );
    assert_eq!(
        vars,
        vec![
            ("misc:Depends".to_string(), "kept".to_string()),
            ("shlibs:Depends".to_string(), "libc6 (>= 2.34)".to_string()),
            ("empty".to_string(), "".to_string()),
        ]
    );
}

#[test]
fn substvars_value_keeps_later_equals_signs() {
    let mut vars = Vec::new();
    read_substvars("a=b=c\n", &mut vars);
    assert_eq!(vars, vec![("a".to_string(), "b=c".to_string())]);
}

#[test]
fn default_settings() {
    let s = Settings::default();
    assert!(!s.upstream_ontologist_net_access);
    assert!(s.show_overridden_issues);
}
