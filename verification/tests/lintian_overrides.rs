use debian_lsp::lintian_overrides::completion::get_completions;
use debian_lsp::lintian_overrides::hover::{get_hover, Hover, MarkupKind, OverrideTokenKind};
use debian_lsp::lsp::{CompletionItem, Position};

fn tags() -> Vec<(String, String)> {
    vec![
        ("missing-systemd-service".to_string(), "d".to_string()),
        ("missing-build-dependency".to_string(), "d".to_string()),
        ("hardening-no-pie".to_string(), "d".to_string()),
    ]
}

fn pkgs() -> Vec<String> {
    vec!["libcurl4".to_string(), "libfoo-dev".to_string()]
}

fn archs() -> Vec<String> {
    vec![
        "amd64".to_string(),
        "arm64".to_string(),
        "armhf".to_string(),
        "i386".to_string(),
        "any".to_string(),
        "all".to_string(),
        "linux-any".to_string(),
    ]
}

fn complete(line: &str, ch: u32) -> Vec<CompletionItem> {
    complete_with(line, ch, &[])
}

fn complete_with(line: &str, ch: u32, packages: &[String]) -> Vec<CompletionItem> {
    get_completions(line, Position::new(0, ch), &tags(), packages, &archs())
}

fn labels(items: &[CompletionItem]) -> Vec<&str> {
    items.iter().map(|c| c.label.as_str()).collect()
}

#[test]
fn first_token_offers_packages_and_tags() {
    let items = complete_with("lib", 3, &pkgs());
    let l = labels(&items);
    assert!(l.contains(&"libcurl4"));
    assert!(l.contains(&"libfoo-dev"));
}

#[test]
fn first_token_filters_tags() {
    let items = complete("missing-", 8);
    let l = labels(&items);
    assert!(l.contains(&"missing-systemd-service"));
    assert!(l.contains(&"missing-build-dependency"));
    assert!(!l.contains(&"hardening-no-pie"));
}

#[test]
fn second_token_without_colon_offers_nothing() {
    assert!(complete_with("libcurl4 ", 9, &pkgs()).is_empty());
}

#[test]
fn after_colon_offers_tags() {
    let items = complete("foo: ", 5);
    let l = labels(&items);
    assert!(l.contains(&"missing-systemd-service"));
    assert!(l.contains(&"hardening-no-pie"));
}

#[test]
fn after_colon_filters_tags() {
    let items = complete("foo: missing-", 13);
    let l = labels(&items);
    assert!(l.contains(&"missing-systemd-service"));
    assert!(!l.contains(&"hardening-no-pie"));
}

#[test]
fn context_after_tag_offers_nothing() {
    assert!(complete("foo: some-tag ", 14).is_empty());
}

#[test]
fn inside_brackets_offers_archs() {
    let items = complete("libcurl4 []: hardening-no-pie", 10);
    let l = labels(&items);
    assert!(l.contains(&"amd64"));
    assert!(l.contains(&"arm64"));
}

#[test]
fn inside_brackets_filters_archs() {
    let items = complete("libcurl4 [arm]: hardening-no-pie", 13);
    let l = labels(&items);
    assert!(l.contains(&"arm64"));
    assert!(l.contains(&"armhf"));
    assert!(!l.contains(&"amd64"));
}

#[test]
fn type_slot_offers_types() {
    let items = complete("foo binary: x", 4);
    let l = labels(&items);
    assert!(l.contains(&"binary"));
    assert!(l.contains(&"source"));
    assert!(l.contains(&"udeb"));
}

#[test]
fn bracket_offered_after_package() {
    let items = complete("foo binary: x", 4);
    let l = labels(&items);
    assert!(l.contains(&"["));
}

#[test]
fn bracket_not_offered_with_existing_arch_list() {
    let items = complete("foo [amd64] binary: x", 12);
    let l = labels(&items);
    assert!(!l.contains(&"["));
    assert!(l.contains(&"binary"));
}

#[test]
fn bracket_not_offered_past_type() {
    let items = complete("foo binary : x", 11);
    let l = labels(&items);
    assert!(!l.contains(&"["));
}

#[test]
fn comment_offers_nothing() {
    assert!(complete("# a comment", 11).is_empty());
}

#[test]
fn after_colon_no_tag_offers_all_tags() {
    let items = complete("foo: ", 5);
    assert_eq!(labels(&items).len(), 3);
}

fn hover_tags() -> Vec<(String, String)> {
    vec![
        ("hardening-no-pie".to_string(), "Binary is not built with PIE.".to_string()),
        ("empty-desc".to_string(), String::new()),
    ]
}

fn packages() -> Vec<String> {
    vec!["libcurl4".to_string(), "libcurl".to_string()]
}

fn md(h: &Hover) -> &str {
    assert_eq!(h.kind, MarkupKind::Markdown);
    assert!(h.range.is_none());
    &h.value
}

#[test]
fn test_hover_tag() {
    let h = get_hover(OverrideTokenKind::Tag, "hardening-no-pie", &hover_tags(), &packages())
        .expect("should have hover");
    assert!(md(&h).contains("Lintian tag"));
    assert!(md(&h).contains("Binary is not built with PIE."));
}

#[test]
fn test_hover_unknown_tag() {
    assert!(get_hover(OverrideTokenKind::Tag, "nope", &hover_tags(), &packages()).is_none());
}

#[test]
fn test_hover_tag_empty_description() {
    assert!(get_hover(OverrideTokenKind::Tag, "empty-desc", &hover_tags(), &packages()).is_none());
}

#[test]
fn test_hover_known_package() {
    let h = get_hover(OverrideTokenKind::PackageName, "libcurl4", &hover_tags(), &packages()).unwrap();
    assert!(md(&h).contains("debian/control"));
    assert!(!md(&h).contains("not found"));
}

#[test]
fn test_hover_unknown_package() {
    let h = get_hover(OverrideTokenKind::PackageName, "ghost", &hover_tags(), &packages()).unwrap();
    assert!(md(&h).contains("not found"));
}

#[test]
fn test_hover_arch() {
    let h = get_hover(OverrideTokenKind::Arch, "amd64", &hover_tags(), &packages()).unwrap();
    assert!(md(&h).contains("Architecture restriction"));
    assert!(!md(&h).contains("excludes"));
}

#[test]
fn test_hover_arch_negated() {
    let h = get_hover(OverrideTokenKind::Arch, "!amd64", &hover_tags(), &packages()).unwrap();
    assert!(md(&h).contains("excludes"));
    assert!(md(&h).contains("amd64"));
}

#[test]
fn test_hover_type_binary() {
    let h = get_hover(OverrideTokenKind::PackageType, "binary", &hover_tags(), &packages()).unwrap();
    assert!(md(&h).contains("binary packages"));
}

#[test]
fn test_hover_type_unknown_returns_none() {
    assert!(get_hover(OverrideTokenKind::PackageType, "weird", &hover_tags(), &packages()).is_none());
}

use debian_lsp::lintian_overrides::completion::{pending_arch, pending_word, split_committed};

#[test]
fn pending_word_is_the_text_after_the_last_space() {
    assert_eq!(pending_word("foo bar"), "bar");
    assert_eq!(pending_word("foo "), "");
    assert_eq!(pending_word("solo"), "solo");
}

#[test]
fn pending_arch_drops_bracket_and_negation() {
    assert_eq!(pending_arch("pkg [!arm"), "arm");
    assert_eq!(pending_arch("pkg [i3"), "i3");
    assert_eq!(pending_arch("pkg amd"), "amd");
}

#[test]
fn split_committed_separates_the_typed_word() {
    assert_eq!(split_committed("  libfoo  bin"), ("libfoo", "bin"));
    assert_eq!(split_committed("  lib"), ("", "lib"));
    assert_eq!(split_committed(""), ("", ""));
}
