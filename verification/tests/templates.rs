use debian_lsp::lsp::CompletionItemKind;
use debian_lsp::templates::completion::value_completions;
use debian_lsp::templates::detection::is_templates_file;
use debian_lsp::templates::fields::get_standard_field_name;
use debian_lsp::templates::semantic::TemplatesFieldValidator;

#[test]
fn standard_casing_canonicalises_lowercase() {
    assert_eq!(get_standard_field_name("template"), Some("Template"));
    assert_eq!(get_standard_field_name("_description"), Some("_Description"));
    assert_eq!(get_standard_field_name("Type"), Some("Type"));
}

#[test]
fn standard_casing_returns_none_for_unknown() {
    assert_eq!(get_standard_field_name("Description-fr.UTF-8"), None);
    assert_eq!(get_standard_field_name("X-Custom"), None);
}

#[test]
fn detection_detects_qualified_and_unqualified() {
    assert!(is_templates_file("file:///p/debian/templates"));
    assert!(is_templates_file("file:///p/debian/mypkg.templates"));
}

#[test]
fn detection_rejects_other_files() {
    assert!(!is_templates_file("file:///p/debian/control"));
    assert!(!is_templates_file("file:///p/templates"));
    assert!(!is_templates_file("file:///p/foo.templates"));
    assert!(!is_templates_file("file:///p/debian/templates.bak"));
}

fn value_labels(field: &str, prefix: &str) -> Vec<String> {
    value_completions(field, prefix).into_iter().map(|c| c.label).collect()
}

#[test]
fn type_values_offered_for_type_field() {
    let labels = value_labels("Type", "");
    assert!(labels.contains(&"boolean".to_string()));
    assert!(labels.contains(&"select".to_string()));
    assert!(labels.contains(&"multiselect".to_string()));
    assert_eq!(labels.len(), 9);
}

#[test]
fn type_values_filtered_by_prefix() {
    assert_eq!(value_labels("Type", "se"), vec!["select".to_string()]);
}

#[test]
fn type_field_matched_without_regard_to_case() {
    assert_eq!(value_labels("type", "pass"), vec!["password".to_string()]);
}

#[test]
fn no_type_values_for_other_fields() {
    assert!(value_labels("Default", "").is_empty());
}

#[test]
fn type_value_items_carry_description_and_kind() {
    let items = value_completions("Type", "note");
    assert_eq!(items.len(), 1);
    assert_eq!(items[0].kind, Some(CompletionItemKind::EnumMember));
    assert_eq!(
        items[0].detail.as_deref(),
        Some("An informative note shown to the user (no input).")
    );
    assert_eq!(items[0].insert_text.as_deref(), Some("note"));
}

#[test]
fn localized_fields_are_known_as_written() {
    let v = TemplatesFieldValidator;
    assert_eq!(
        v.get_standard_field_name("Description-fr.UTF-8").as_deref(),
        Some("Description-fr.UTF-8")
    );
    assert_eq!(v.get_standard_field_name("Choices-de").as_deref(), Some("Choices-de"));
    assert_eq!(v.get_standard_field_name("Description-"), None);
}

#[test]
fn master_fields_are_known_by_canonical_name() {
    let v = TemplatesFieldValidator;
    assert_eq!(v.get_standard_field_name("__choices").as_deref(), Some("__Choices"));
    assert_eq!(v.get_standard_field_name("X-Custom"), None);
}

#[test]
fn standard_name_ignores_case_and_is_idempotent() {
    for n in ["type", "TYPE", "Type", "tYpE"] {
        assert_eq!(get_standard_field_name(n), Some("Type"));
    }
    assert_eq!(get_standard_field_name("Type"), Some("Type"));
}
