//! Field tables of debconf templates and the lookup of canonical field casing.

use vstd::prelude::*;
use crate::text::{eq_ignore_ascii_case, str_eq_ignore_ascii_case};

verus! {

/// A known field: its canonical name and a one-line description.
pub struct FieldInfo {
    pub name: &'static str,
    pub description: &'static str,
}

/// The canonical names of debconf template fields, in table order.
pub open spec fn templates_field_names() -> Seq<Seq<char>> {
    seq![
        "Template"@,
        "Type"@,
        "Description"@,
        "_Description"@,
        "Choices"@,
        "_Choices"@,
        "__Choices"@,
        "Default"@,
        "_Default"@,
    ]
}

/// The `Type` values with their descriptions, in table order.
pub open spec fn template_types_spec() -> Seq<(Seq<char>, Seq<char>)> {
    seq![
        ("string"@, "Free-form single-line text input."@),
        ("password"@, "Free-form input that is not echoed back."@),
        ("boolean"@, "A yes/no question; the answer is `true` or `false`."@),
        ("select"@, "Pick a single option from `Choices`."@),
        ("multiselect"@, "Pick zero or more options from `Choices`."@),
        ("note"@, "An informative note shown to the user (no input)."@),
        ("error"@, "A note flagging an error condition (no input)."@),
        ("text"@, "A block of text shown to the user (no input)."@),
        ("title"@, "Sets the title of the following questions."@),
    ]
}

/// The names of a field table.
pub open spec fn names_of(fields: Seq<FieldInfo>) -> Seq<Seq<char>> {
    fields.map_values(|f: FieldInfo| f.name@)
}

/// The first name of `names` that equals `name` up to ASCII case.
pub open spec fn first_ci_match(names: Seq<Seq<char>>, name: Seq<char>) -> Option<Seq<char>>
    decreases names.len(),
{
    if names.len() == 0 {
        None
    } else if eq_ignore_ascii_case(names[0], name) {
        Some(names[0])
    } else {
        first_ci_match(names.drop_first(), name)
    }
}

/// Canonical debconf template field names with one-line descriptions.
pub fn templates_fields() -> (r: Vec<FieldInfo>)
    ensures
        names_of(r@) == templates_field_names(),
{
    let r = vec![
        FieldInfo { name: "Template", description: "Template name (slash-separated). Required." },
        FieldInfo { name: "Type", description: "Widget type of the question. Required." },
        FieldInfo {
            name: "Description",
            description: "Short description, then an optional indented body. Required.",
        },
        FieldInfo { name: "_Description", description: "Translatable `Description` (po-debconf)." },
        FieldInfo {
            name: "Choices",
            description: "Comma-separated options for `select`/`multiselect`.",
        },
        FieldInfo { name: "_Choices", description: "Translatable `Choices` (po-debconf)." },
        FieldInfo {
            name: "__Choices",
            description: "Translatable `Choices`, split per item (po-debconf).",
        },
        FieldInfo { name: "Default", description: "Default answer." },
        FieldInfo { name: "_Default", description: "Translatable `Default` (po-debconf)." },
    ];
    assert(names_of(r@) =~= templates_field_names());
    r
}

/// Debconf template `Type` values with a one-line description each.
pub fn template_types() -> (r: Vec<(&'static str, &'static str)>)
    ensures
        r@.map_values(|t: (&'static str, &'static str)| (t.0@, t.1@)) == template_types_spec(),
{
    let r = vec![
        ("string", "Free-form single-line text input."),
        ("password", "Free-form input that is not echoed back."),
        ("boolean", "A yes/no question; the answer is `true` or `false`."),
        ("select", "Pick a single option from `Choices`."),
        ("multiselect", "Pick zero or more options from `Choices`."),
        ("note", "An informative note shown to the user (no input)."),
        ("error", "A note flagging an error condition (no input)."),
        ("text", "A block of text shown to the user (no input)."),
        ("title", "Sets the title of the following questions."),
    ];
    assert(r@.map_values(|t: (&'static str, &'static str)| (t.0@, t.1@)) =~= template_types_spec());
    r
}

/// The canonical name in `fields` of the field `field_name`: the first entry
/// whose name equals it up to ASCII case.
pub fn standard_field_name(fields: &Vec<FieldInfo>, field_name: &str) -> (r: Option<&'static str>)
    ensures
        r matches Some(s) ==> first_ci_match(names_of(fields@), field_name@) == Some(s@),
        r is None ==> first_ci_match(names_of(fields@), field_name@) is None,
{
    let ghost names = names_of(fields@);
    let mut i: usize = 0;
    assert(names.skip(0) =~= names);
    while i < fields.len()
        invariant
            names == names_of(fields@),
            i <= fields.len(),
            first_ci_match(names, field_name@) == first_ci_match(names.skip(i as int), field_name@),
        decreases fields.len() - i,
    {
        assert(names.skip(i as int)[0] == fields@[i as int].name@);
        if str_eq_ignore_ascii_case(fields[i].name, field_name) {
            return Some(fields[i].name);
        }
        assert(names.skip(i as int).drop_first() =~= names.skip(i + 1));
        i += 1;
    }
    None
}

/// Look up the canonical casing for a template field name.
pub fn get_standard_field_name(field_name: &str) -> (r: Option<&'static str>)
    ensures
        r matches Some(s) ==> first_ci_match(templates_field_names(), field_name@) == Some(s@),
        r is None ==> first_ci_match(templates_field_names(), field_name@) is None,
{
    standard_field_name(&templates_fields(), field_name)
}

/// Names that are equal up to ASCII case have the same first
/// case-insensitive match.
pub proof fn lemma_first_ci_match_case_blind(names: Seq<Seq<char>>, a: Seq<char>, b: Seq<char>)
    requires
        eq_ignore_ascii_case(a, b),
    ensures
        first_ci_match(names, a) == first_ci_match(names, b),
    decreases names.len(),
{
    if names.len() > 0 {
        assert(eq_ignore_ascii_case(names[0], a) == eq_ignore_ascii_case(names[0], b));
        lemma_first_ci_match_case_blind(names.drop_first(), a, b);
    }
}

/// The first case-insensitive match of a name equals it up to ASCII case.
pub proof fn lemma_first_ci_match_equal(names: Seq<Seq<char>>, name: Seq<char>)
    ensures
        first_ci_match(names, name) matches Some(s) ==> eq_ignore_ascii_case(s, name),
    decreases names.len(),
{
    if names.len() > 0 && !eq_ignore_ascii_case(names[0], name) {
        lemma_first_ci_match_equal(names.drop_first(), name);
    }
}

/// The standard-name lookup ignores ASCII case and is idempotent: a name
/// written in any casing of `name` gets the standard name `name` gets, and
/// the standard name is its own standard name.
pub proof fn lemma_standard_name_stable(names: Seq<Seq<char>>, name: Seq<char>, other: Seq<char>)
    requires
        eq_ignore_ascii_case(name, other),
    ensures
        first_ci_match(names, other) == first_ci_match(names, name),
        first_ci_match(names, name) matches Some(s) ==> first_ci_match(names, s) == Some(s),
{
    lemma_first_ci_match_case_blind(names, name, other);
    lemma_first_ci_match_equal(names, name);
    if let Some(s) = first_ci_match(names, name) {
        lemma_first_ci_match_case_blind(names, s, name);
    }
}

} // verus!
