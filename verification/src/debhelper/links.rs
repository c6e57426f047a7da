//! `debian/links` and `debian/<package>.links` files.

use vstd::prelude::*;
use crate::debhelper::detection::{is_debhelper_file, is_debhelper_uri};
use crate::lsp::{CompletionItem, CompletionItemKind, ItemModel, items_view, opt_view};
use crate::order::{names, sorted_unique, strictly_sorted};
use crate::text::{
    after_last, after_last_in, chars_of, concat, lemma_after_last, str_ends_with, str_eq,
    str_starts_with,
};

verus! {

/// Whether the URI is a debian/links or debian/<package>.links file.
pub fn is_links_file(uri: &str) -> (r: bool)
    ensures
        r == is_debhelper_uri(uri@, "links"@),
{
    is_debhelper_file(uri, "links")
}

/// The `<package>` of a `.../<package>.links` URI: the last path segment
/// without its `.links` suffix, when that leaves something.
pub open spec fn links_package_name(uri: Seq<char>) -> Option<Seq<char>> {
    let file = uri.skip(after_last(uri, '/'));
    if ".links"@.is_suffix_of(file) && file.len() > ".links"@.len() {
        Some(file.take(file.len() - ".links"@.len()))
    } else {
        None
    }
}

/// `dir` joined with the relative path `name`, a separator put between them
/// unless `dir` is empty or already ends in one.
pub open spec fn join_path(dir: Seq<char>, name: Seq<char>) -> Seq<char> {
    if dir.len() == 0 || dir.last() == '/' {
        dir + name
    } else {
        dir + "/"@ + name
    }
}

/// The <package> part of a debian/<package>.links filename, if any.
pub fn package_name(uri: &str) -> (r: Option<String>)
    ensures
        opt_view(r) == links_package_name(uri@),
{
    let cs = chars_of(uri);
    let n = cs.len();
    assert(cs@.take(n as int) =~= uri@);
    let mut j = n;
    while j > 0 && cs[j - 1] != '/'
        invariant
            j <= n == cs.len(),
            cs@ == uri@,
            after_last(uri@, '/') == after_last(uri@.take(j as int), '/'),
        decreases j,
    {
        assert(uri@.take(j as int).drop_last() =~= uri@.take(j - 1));
        j -= 1;
    }
    if j > 0 {
        assert(uri@.take(j as int).last() == uri@[j - 1]);
    }
    proof {
        lemma_after_last(uri@, '/');
    }
    let file = uri.substring_char(j, n);
    assert(file@ =~= uri@.skip(after_last(uri@, '/')));
    let len = file.unicode_len();
    proof {
        reveal_strlit(".links");
    }
    if str_ends_with(file, ".links") && len > 6 {
        let stem = file.substring_char(0, len - 6);
        Some(String::from_str(stem))
    } else {
        None
    }
}

/// `dir` joined with `name` as `Path::join` joins a relative name.
pub fn join(dir: &str, name: &str) -> (r: String)
    ensures
        r@ == join_path(dir@, name@),
{
    let n = dir.unicode_len();
    if n == 0 || dir.get_char(n - 1) == '/' {
        concat(dir, name)
    } else {
        let mut s = concat(dir, "/");
        s.append(name);
        s
    }
}

/// The staging directory whose files a links file refers to: debian/<package>
/// for a debian/<package>.links file, else debian/tmp for a plain debian/links.
pub fn package_dir(debian_dir: &str, uri: &str) -> (r: String)
    ensures
        r@ == match links_package_name(uri@) {
            Some(p) => join_path(debian_dir@, p),
            None => join_path(debian_dir@, "tmp"@),
        },
{
    match package_name(uri) {
        Some(pkg) => join(debian_dir, pkg.as_str()),
        None => join(debian_dir, "tmp"),
    }
}

} // verus!

verus! {

/// The directory part of a link token: everything up to its last `/`.
pub open spec fn token_dir(prefix: Seq<char>) -> Seq<char> {
    prefix.take(after_last(prefix, '/'))
}

/// The paths that the entries `listing` of directory `dir` offer for a
/// token starting with `prefix`: `dir` joined with each name, those that
/// start with `prefix` kept.
pub open spec fn candidate_paths(
    dir: Seq<char>,
    prefix: Seq<char>,
    listing: Seq<(String, bool)>,
) -> Seq<Seq<char>> {
    listing.map_values(|e: (String, bool)| dir + e.0@).filter(|c: Seq<char>| prefix.is_prefix_of(c))
}

/// Whether the last entry of `listing` that gives path `c` is a directory.
pub open spec fn is_dir_path(dir: Seq<char>, listing: Seq<(String, bool)>, c: Seq<char>) -> bool
    decreases listing.len(),
{
    if listing.len() == 0 {
        false
    } else if dir + listing.last().0@ == c {
        listing.last().1
    } else {
        is_dir_path(dir, listing.drop_last(), c)
    }
}

/// The item offering path `c`: a folder, labelled with a trailing `/`, or
/// a file.
pub open spec fn path_item(c: Seq<char>, is_dir: bool) -> ItemModel {
    if is_dir {
        (c + "/"@, Some(CompletionItemKind::Folder), None, None)
    } else {
        (c, Some(CompletionItemKind::File), None, None)
    }
}

/// The directory part of a link token.
pub fn token_dir_of(prefix: &str) -> (r: &str)
    ensures
        r@ == token_dir(prefix@),
{
    let cs = chars_of(prefix);
    let k = after_last_in(&cs, cs.len(), '/');
    assert(cs@.take(cs.len() as int) =~= prefix@);
    proof {
        lemma_after_last(prefix@, '/');
    }
    prefix.substring_char(0, k)
}

/// Whether the last entry of `listing` that gives path `c` is a directory.
fn last_is_dir(dir: &str, listing: &Vec<(String, bool)>, c: &str) -> (r: bool)
    ensures
        r == is_dir_path(dir@, listing@, c@),
{
    let mut j = listing.len();
    assert(listing@.take(j as int) =~= listing@);
    while j > 0
        invariant
            j <= listing.len(),
            is_dir_path(dir@, listing@, c@) == is_dir_path(dir@, listing@.take(j as int), c@),
        decreases j,
    {
        let path = concat(dir, listing[j - 1].0.as_str());
        let ghost t = listing@.take(j as int);
        assert(t.last() == listing@[j - 1]);
        if str_eq(path.as_str(), c) {
            return listing[j - 1].1;
        }
        assert(t.drop_last() =~= listing@.take(j - 1));
        j -= 1;
    }
    assert(listing@.take(0) =~= Seq::<(String, bool)>::empty());
    false
}

/// Completion items for the entries `listing` (name, whether a directory)
/// of the staging directory that a link token's directory part names: each
/// path once, in order, directories ending in `/`.
pub fn package_candidates(prefix: &str, listing: &Vec<(String, bool)>) -> (r: Vec<CompletionItem>)
    ensures
        exists|ks: Seq<Seq<char>>|
            {
                &&& strictly_sorted(ks)
                &&& forall|x: Seq<char>|
                    ks.contains(x) <==> candidate_paths(token_dir(prefix@), prefix@, listing@).contains(x)
                &&& items_view(r@) == ks.map_values(
                    |c: Seq<char>| path_item(c, is_dir_path(token_dir(prefix@), listing@, c)),
                )
            },
{
    let dir = token_dir_of(prefix);
    let ghost cands = candidate_paths(dir@, prefix@, listing@);
    let ghost all = listing@.map_values(|e: (String, bool)| dir@ + e.0@);
    let mut found: Vec<String> = Vec::new();
    let mut i: usize = 0;
    while i < listing.len()
        invariant
            i <= listing.len(),
            all == listing@.map_values(|e: (String, bool)| dir@ + e.0@),
            names(found@) == all.take(i as int).filter(|c: Seq<char>| prefix@.is_prefix_of(c)),
        decreases listing.len() - i,
    {
        let candidate = concat(dir, listing[i].0.as_str());
        assert(all.take(i + 1) =~= all.take(i as int).push(candidate@));
        proof {
            all.take(i as int).lemma_filter_push(
                candidate@,
                |c: Seq<char>| prefix@.is_prefix_of(c),
            );
        }
        let ghost before = names(found@);
        if str_starts_with(candidate.as_str(), prefix) {
            found.push(candidate);
            assert(names(found@) =~= before.push(candidate@));
        }
        i += 1;
    }
    assert(all.take(listing.len() as int) =~= all);
    assert(names(found@) == cands);
    let keys = sorted_unique(&found);
    let ghost ks = names(keys@);
    let mut r: Vec<CompletionItem> = Vec::new();
    let mut k: usize = 0;
    while k < keys.len()
        invariant
            k <= keys.len(),
            ks == names(keys@),
            items_view(r@) == ks.take(k as int).map_values(
                |c: Seq<char>| path_item(c, is_dir_path(dir@, listing@, c)),
            ),
        decreases keys.len() - k,
    {
        let path = keys[k].as_str();
        let is_dir = last_is_dir(dir, listing, path);
        let item = if is_dir {
            proof {
                reveal_strlit("/");
            }
            CompletionItem {
                label: concat(path, "/"),
                kind: Some(CompletionItemKind::Folder),
                detail: None,
                insert_text: None,
            }
        } else {
            CompletionItem {
                label: String::from_str(path),
                kind: Some(CompletionItemKind::File),
                detail: None,
                insert_text: None,
            }
        };
        let ghost before = r@;
        r.push(item);
        assert(ks[k as int] == path@);
        assert(ks.take(k + 1) =~= ks.take(k as int).push(path@));
        assert(items_view(r@) =~= items_view(before).push(path_item(path@, is_dir)));
        assert(ks.take(k + 1).map_values(|c: Seq<char>| path_item(c, is_dir_path(dir@, listing@, c)))
            =~= ks.take(k as int).map_values(
            |c: Seq<char>| path_item(c, is_dir_path(dir@, listing@, c)),
        ).push(path_item(path@, is_dir)));
        k += 1;
    }
    assert(ks.take(keys.len() as int) =~= ks);
    r
}

} // verus!
