//! Which field names of a debconf templates file count as known.

use vstd::prelude::*;
use crate::lsp::opt_view;
use crate::templates::fields::{first_ci_match, get_standard_field_name, templates_field_names};
use crate::text::str_starts_with;

verus! {

/// `name` is a localized variant of a field: `Description-`, `Choices-` or
/// `Default-` followed by at least one character.
pub open spec fn is_localized_field(name: Seq<char>) -> bool {
    ||| "Description-"@.is_prefix_of(name) && name.len() > "Description-"@.len()
    ||| "Choices-"@.is_prefix_of(name) && name.len() > "Choices-"@.len()
    ||| "Default-"@.is_prefix_of(name) && name.len() > "Default-"@.len()
}

/// The name a field is known under: a localized variant as written, any
/// other field by its canonical casing.
pub open spec fn known_field_name(name: Seq<char>) -> Option<Seq<char>> {
    if is_localized_field(name) {
        Some(name)
    } else {
        first_ci_match(templates_field_names(), name)
    }
}

/// An owned copy of `name` that the validator can hand out.
pub fn intern(name: &str) -> (r: String)
    ensures
        r@ == name@,
{
    String::from_str(name)
}

/// Decides which field names of a templates file are known.
pub struct TemplatesFieldValidator;

impl TemplatesFieldValidator {
    /// The name `name` is known under, if any.
    pub fn get_standard_field_name(&self, name: &str) -> (r: Option<String>)
        ensures
            opt_view(r) == known_field_name(name@),
    {
        let prefixes = ["Description-", "Choices-", "Default-"];
        let mut i: usize = 0;
        while i < 3
            invariant
                i <= 3,
                prefixes@ == seq!["Description-", "Choices-", "Default-"],
                forall|j: int|
                    0 <= j < i ==> !(#[trigger] prefixes@[j]@.is_prefix_of(name@) && name@.len()
                        > prefixes@[j]@.len()),
            decreases 3 - i,
        {
            let prefix = prefixes[i];
            if str_starts_with(name, prefix) && name.unicode_len() > prefix.unicode_len() {
                return Some(intern(name));
            }
            i += 1;
        }
        match get_standard_field_name(name) {
            Some(s) => Some(String::from_str(s)),
            None => None,
        }
    }
}

/// The localized variants of the translatable fields of the template table
/// (`Description`, `Choices`, `Default`) are known as written: the field
/// name, a hyphen and any non-empty suffix, such as `Default-fr.UTF-8`.
pub proof fn lemma_localized_fields_known(x: Seq<char>)
    requires
        x.len() > 0,
    ensures
        templates_field_names().contains("Description"@),
        templates_field_names().contains("Choices"@),
        templates_field_names().contains("Default"@),
        known_field_name("Description"@ + "-"@ + x) == Some("Description"@ + "-"@ + x),
        known_field_name("Choices"@ + "-"@ + x) == Some("Choices"@ + "-"@ + x),
        known_field_name("Default"@ + "-"@ + x) == Some("Default"@ + "-"@ + x),
{
    reveal_strlit("Description");
    reveal_strlit("Choices");
    reveal_strlit("Default");
    reveal_strlit("-");
    reveal_strlit("Description-");
    reveal_strlit("Choices-");
    reveal_strlit("Default-");
    let names = templates_field_names();
    assert(names[2] == "Description"@);
    assert(names[4] == "Choices"@);
    assert(names[7] == "Default"@);
    assert("Description"@ + "-"@ =~= "Description-"@);
    assert("Choices"@ + "-"@ =~= "Choices-"@);
    assert("Default"@ + "-"@ =~= "Default-"@);
    assert(("Description-"@ + x).take("Description-"@.len() as int) =~= "Description-"@);
    assert(("Choices-"@ + x).take("Choices-"@.len() as int) =~= "Choices-"@);
    assert(("Default-"@ + x).take("Default-"@.len() as int) =~= "Default-"@);
    assert(is_localized_field("Description-"@ + x));
    assert(is_localized_field("Choices-"@ + x));
    assert(is_localized_field("Default-"@ + x));
}

} // verus!
