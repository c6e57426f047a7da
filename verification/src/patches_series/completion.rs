//! Completion in a quilt series file: patch files not listed yet, then the
//! `-pN` strip options.

use vstd::prelude::*;
use vstd::utf8::{encode_utf8, is_char_boundary};
use crate::lsp::{CompletionItem, CompletionItemKind, ItemModel, Position, items_view};
use crate::order::{names, sorted_unique, strictly_sorted};
use crate::patches_series::series::{Series, listed_patches, patch_names};
use crate::position::{byte_prefix, prefix_to};
use crate::text::{line_at, nth_line, split_words, str_eq, views, words};

verus! {

/// The item offering the patch file `name`.
pub open spec fn patch_file_item(name: Seq<char>) -> ItemModel {
    (name, Some(CompletionItemKind::File), Some("Patch file"@), None)
}

/// The labels of a list of completion items.
pub open spec fn labels(items: Seq<CompletionItem>) -> Seq<Seq<char>> {
    items.map_values(|i: CompletionItem| i.label@)
}

/// `items` offer, sorted by name and each once, exactly the files of
/// `files` that `listed` does not hold.
pub open spec fn offers_unlisted(
    items: Seq<CompletionItem>,
    files: Seq<Seq<char>>,
    listed: Seq<Seq<char>>,
) -> bool {
    &&& forall|i: int| 0 <= i < items.len() ==> #[trigger] items[i]@ == patch_file_item(items[i].label@)
    &&& strictly_sorted(labels(items))
    &&& forall|x: Seq<char>| labels(items).contains(x) <==> (files.contains(x) && !listed.contains(x))
}

/// The strip options, in order.
pub open spec fn strip_option_items() -> Seq<ItemModel> {
    seq![
        ("-p0"@, Some(CompletionItemKind::Value), Some("No path stripping"@), None),
        ("-p1"@, Some(CompletionItemKind::Value), Some("Strip 1 path component (default)"@), None),
        ("-p2"@, Some(CompletionItemKind::Value), Some("Strip 2 path components"@), None),
    ]
}

/// Whether `s` holds `x`.
fn contains_str(s: &Vec<String>, x: &str) -> (r: bool)
    ensures
        r == names(s@).contains(x@),
{
    let mut i: usize = 0;
    while i < s.len()
        invariant
            i <= s.len(),
            forall|j: int| 0 <= j < i ==> names(s@)[j] != x@,
        decreases s.len() - i,
    {
        if str_eq(s[i].as_str(), x) {
            assert(names(s@)[i as int] == x@);
            return true;
        }
        i += 1;
    }
    false
}

/// Completions for each patch file of the patches folder that the series
/// does not list yet, sorted by name.
pub fn get_patch_file_completions(
    patch_files: &Vec<String>,
    already_listed: &Vec<String>,
) -> (r: Vec<CompletionItem>)
    ensures
        offers_unlisted(r@, names(patch_files@), names(already_listed@)),
{
    let mut unlisted: Vec<String> = Vec::new();
    let mut i: usize = 0;
    while i < patch_files.len()
        invariant
            i <= patch_files.len(),
            forall|x: Seq<char>|
                names(unlisted@).contains(x) <==> (names(patch_files@).take(i as int).contains(x)
                    && !names(already_listed@).contains(x)),
        decreases patch_files.len() - i,
    {
        let name = patch_files[i].as_str();
        let ghost fs = names(patch_files@);
        assert(fs.take(i + 1) =~= fs.take(i as int).push(name@));
        let ghost before = names(unlisted@);
        if !contains_str(already_listed, name) {
            unlisted.push(String::from_str(name));
            assert(names(unlisted@) =~= before.push(name@));
        }
        assert forall|x: Seq<char>| names(unlisted@).contains(x) <==> (fs.take(i + 1).contains(x)
            && !names(already_listed@).contains(x)) by {
            assert(fs.take(i + 1)[i as int] == name@);
            if fs.take(i + 1).contains(x) && x != name@ {
                let t = fs.take(i + 1);
                let j = choose|j: int| 0 <= j < i + 1 && t[j] == x;
                assert(fs.take(i as int)[j] == x);
            }
            if fs.take(i as int).contains(x) {
                let t = fs.take(i as int);
                let j = choose|j: int| 0 <= j < i && t[j] == x;
                assert(fs.take(i + 1)[j] == x);
            }
            if names(unlisted@).contains(x) && x != name@ {
                let j = choose|j: int| 0 <= j < names(unlisted@).len() && names(unlisted@)[j] == x;
                assert(before[j] == x);
            }
            if before.contains(x) {
                let j = choose|j: int| 0 <= j < before.len() && before[j] == x;
                assert(names(unlisted@)[j] == x);
            }
            if x == name@ && names(unlisted@).len() > before.len() {
                assert(names(unlisted@)[before.len() as int] == x);
            }
        }
        i += 1;
    }
    assert(names(patch_files@).take(patch_files.len() as int) =~= names(patch_files@));
    let sorted = sorted_unique(&unlisted);
    let mut r: Vec<CompletionItem> = Vec::new();
    let mut k: usize = 0;
    while k < sorted.len()
        invariant
            k <= sorted.len(),
            r.len() == k,
            forall|j: int| 0 <= j < k ==> #[trigger] r@[j]@ == patch_file_item(r@[j].label@),
            labels(r@) == names(sorted@).take(k as int),
        decreases sorted.len() - k,
    {
        let item = CompletionItem {
            label: String::from_str(sorted[k].as_str()),
            kind: Some(CompletionItemKind::File),
            detail: Some(String::from_str("Patch file")),
            insert_text: None,
        };
        let ghost before = r@;
        r.push(item);
        assert(labels(r@) =~= names(sorted@).take(k + 1));
        proof {
            assert forall|j: int| 0 <= j < k + 1 implies #[trigger] r@[j]@ == patch_file_item(
                r@[j].label@,
            ) by {
                if j < k {
                    assert(r@[j] == before[j]);
                }
            }
        }
        k += 1;
    }
    assert(names(sorted@).take(sorted.len() as int) =~= names(sorted@));
    r
}

/// Get completion items for the strip option (-p0, -p1, -p2)
pub fn get_strip_option_completions() -> (r: Vec<CompletionItem>)
    ensures
        items_view(r@) == strip_option_items(),
{
    let r = vec![
        CompletionItem {
            label: String::from_str("-p0"),
            kind: Some(CompletionItemKind::Value),
            detail: Some(String::from_str("No path stripping")),
            insert_text: None,
        },
        CompletionItem {
            label: String::from_str("-p1"),
            kind: Some(CompletionItemKind::Value),
            detail: Some(String::from_str("Strip 1 path component (default)")),
            insert_text: None,
        },
        CompletionItem {
            label: String::from_str("-p2"),
            kind: Some(CompletionItemKind::Value),
            detail: Some(String::from_str("Strip 2 path components")),
            insert_text: None,
        },
    ];
    assert(items_view(r@) =~= strip_option_items());
    r
}

/// The text of line `position.line` before the cursor.
pub open spec fn series_before_cursor(text: Seq<char>, position: Position) -> Seq<char> {
    byte_prefix(nth_line(text, position.line as int), position.character as int)
}

/// The cursor's column lies within its line, on a character boundary.
pub open spec fn cursor_in_line(text: Seq<char>, position: Position) -> bool {
    let line = encode_utf8(nth_line(text, position.line as int));
    position.character <= line.len() && is_char_boundary(line, position.character as int)
}

/// Get completion items for a debian/patches/series file.
///
/// `patch_files` are the patch files found under the patches folder.
pub fn get_completions(
    parsed: &Series,
    source_text: &str,
    position: Position,
    patch_files: &Vec<String>,
) -> (r: Vec<CompletionItem>)
    requires
        cursor_in_line(source_text@, position),
    ensures
        ({
            let before = series_before_cursor(source_text@, position);
            if words(before).len() >= 2 {
                r@.len() == 0
            } else if before.len() > 0 && before.last() == ' ' {
                items_view(r@) == strip_option_items()
            } else {
                offers_unlisted(r@, names(patch_files@), patch_names(parsed@))
            }
        }),
{
    let current_line = line_at(source_text, position.line as usize);
    let before_cursor = prefix_to(current_line, position.character as usize);
    let tokens = split_words(before_cursor);
    if tokens.len() >= 2 {
        return Vec::new();
    }
    let cs = crate::text::chars_of(before_cursor);
    if cs.len() > 0 && cs[cs.len() - 1] == ' ' {
        return get_strip_option_completions();
    }
    let already_listed = listed_patches(parsed);
    get_patch_file_completions(patch_files, &already_listed)
}

} // verus!
