//! Recognising a debhelper file from its URI.

use vstd::prelude::*;
use crate::text::{after_last, after_last_in, chars_of, concat, lemma_after_last, str_ends_with};

verus! {

/// The URI names `debian/<name>` or `debian/<package>.<name>`: it ends in
/// `/debian/<name>`, or it ends in `.<name>` and what precedes that lies in
/// a directory whose path ends in `/debian`.
pub open spec fn is_debhelper_uri(uri: Seq<char>, name: Seq<char>) -> bool {
    ||| ("/debian/"@ + name).is_suffix_of(uri)
    ||| {
        &&& ("."@ + name).is_suffix_of(uri)
        &&& {
            let rest = uri.take(uri.len() - name.len() - 1);
            let slash = after_last(rest, '/');
            slash > 0 && "/debian"@.is_suffix_of(rest.take(slash - 1))
        }
    }
}

/// Whether `uri` is `debian/<name>` or `debian/<package>.<name>`.
pub fn is_debhelper_file(uri: &str, name: &str) -> (r: bool)
    ensures
        r == is_debhelper_uri(uri@, name@),
{
    let plain = concat("/debian/", name);
    if str_ends_with(uri, plain.as_str()) {
        return true;
    }
    let dotted = concat(".", name);
    if !str_ends_with(uri, dotted.as_str()) {
        return false;
    }
    let cs = chars_of(uri);
    proof {
        reveal_strlit(".");
    }
    assert(dotted@.len() == name@.len() + 1);
    let k = cs.len() - dotted.as_str().unicode_len();
    let slash = after_last_in(&cs, k, '/');
    if slash == 0 {
        return false;
    }
    let dir = uri.substring_char(0, slash - 1);
    proof {
        lemma_after_last(uri@.take(k as int), '/');
    }
    assert(dir@ =~= uri@.take(k as int).take(slash - 1));
    str_ends_with(dir, "/debian")
}

} // verus!
