//! Completion of debconf template field values.

use vstd::prelude::*;
use crate::lsp::{CompletionItem, CompletionItemKind, ItemModel, items_view};
use crate::templates::fields::{template_types, template_types_spec};
use crate::text::{eq_ignore_ascii_case, lemma_filter_map_push, lemma_take_succ, str_eq_ignore_ascii_case, str_starts_with};

verus! {

/// Keeps the type values that start with the prefix.
pub open spec fn type_value_filter(prefix: Seq<char>) -> spec_fn((Seq<char>, Seq<char>)) -> bool {
    |t: (Seq<char>, Seq<char>)| prefix.is_prefix_of(t.0)
}

/// The completion item of a `Type` value and its description.
pub open spec fn type_value_item(t: (Seq<char>, Seq<char>)) -> ItemModel {
    (t.0, Some(CompletionItemKind::EnumMember), Some(t.1), Some(t.0))
}

/// The value completions of field `field_name` for a value starting with
/// `value_prefix`: `Type` values only.
pub open spec fn value_completions_spec(field_name: Seq<char>, value_prefix: Seq<char>) -> Seq<
    ItemModel,
> {
    if !eq_ignore_ascii_case(field_name, "Type"@) {
        seq![]
    } else {
        template_types_spec().filter(type_value_filter(value_prefix)).map_values(
            |t: (Seq<char>, Seq<char>)| type_value_item(t),
        )
    }
}

/// Field-value completions.
pub fn value_completions(field_name: &str, value_prefix: &str) -> (r: Vec<CompletionItem>)
    ensures
        items_view(r@) == value_completions_spec(field_name@, value_prefix@),
{
    if !str_eq_ignore_ascii_case(field_name, "Type") {
        return Vec::new();
    }
    let types = template_types();
    let ghost model = types@.map_values(|t: (&'static str, &'static str)| (t.0@, t.1@));
    let mut out: Vec<CompletionItem> = Vec::new();
    let mut i: usize = 0;
    while i < types.len()
        invariant
            i <= types.len(),
            model == types@.map_values(|t: (&'static str, &'static str)| (t.0@, t.1@)),
            model == template_types_spec(),
            items_view(out@) == model.take(i as int).filter(type_value_filter(value_prefix@)).map_values(
                |t: (Seq<char>, Seq<char>)| type_value_item(t),
            ),
        decreases types.len() - i,
    {
        proof {
            lemma_take_succ(model, i as int);
            lemma_filter_map_push(
                model.take(i as int),
                model[i as int],
                type_value_filter(value_prefix@),
                |t: (Seq<char>, Seq<char>)| type_value_item(t),
            );
        }
        let (label, doc) = types[i];
        if str_starts_with(label, value_prefix) {
            let item = CompletionItem {
                label: String::from_str(label),
                kind: Some(CompletionItemKind::EnumMember),
                detail: Some(String::from_str(doc)),
                insert_text: Some(String::from_str(label)),
            };
            out.push(item);
            assert(items_view(out@) =~= items_view(out@.drop_last()).push(item@));
        }
        i += 1;
    }
    assert(model.take(types.len() as int) =~= model);
    out
}

} // verus!
