//! Substitution variables read from `debian/*.substvars` files.

use vstd::prelude::*;
use crate::text::{chars_of, lines, lines_of, str_eq, views};

verus! {

/// Index of the first `=` of `s`, if any.
pub open spec fn first_eq(s: Seq<char>) -> Option<int>
    decreases s.len(),
{
    if s.len() == 0 {
        None
    } else if s[0] == '=' {
        Some(0)
    } else {
        match first_eq(s.drop_first()) {
            Some(k) => Some(k + 1),
            None => None,
        }
    }
}

/// The variable a substvars line defines: what precedes its first `=`,
/// and what follows it.
pub open spec fn substvar_line(l: Seq<char>) -> Option<(Seq<char>, Seq<char>)> {
    match first_eq(l) {
        Some(k) => Some((l.take(k), l.skip(k + 1))),
        None => None,
    }
}

/// Whether `vars` defines `key`.
pub open spec fn defines(vars: Seq<(Seq<char>, Seq<char>)>, key: Seq<char>) -> bool {
    exists|i: int| 0 <= i < vars.len() && (#[trigger] vars[i]).0 == key
}

/// `vars` with the definitions of the lines `ls` added, in order; a
/// variable already defined keeps its value.
pub open spec fn add_substvars(vars: Seq<(Seq<char>, Seq<char>)>, ls: Seq<Seq<char>>) -> Seq<(Seq<char>, Seq<char>)>
    decreases ls.len(),
{
    if ls.len() == 0 {
        vars
    } else {
        let next = match substvar_line(ls[0]) {
            Some(kv) => if defines(vars, kv.0) {
                vars
            } else {
                vars.push(kv)
            },
            None => vars,
        };
        add_substvars(next, ls.drop_first())
    }
}

/// The models of a list of variables.
pub open spec fn vars_view(v: Seq<(String, String)>) -> Seq<(Seq<char>, Seq<char>)> {
    v.map_values(|kv: (String, String)| (kv.0@, kv.1@))
}

pub proof fn lemma_first_eq(s: Seq<char>)
    ensures
        first_eq(s) matches Some(k) ==> 0 <= k < s.len() && s[k] == '=',
        first_eq(s) is None ==> forall|j: int| 0 <= j < s.len() ==> s[j] != '=',
    decreases s.len(),
{
    if s.len() > 0 && s[0] != '=' {
        lemma_first_eq(s.drop_first());
        if first_eq(s.drop_first()) is None {
            assert forall|j: int| 0 <= j < s.len() implies s[j] != '=' by {
                if j > 0 {
                    assert(s[j] == s.drop_first()[j - 1]);
                }
            }
        }
    }
}

/// Whether `vars` defines `key`.
fn defines_key(vars: &Vec<(String, String)>, key: &str) -> (r: bool)
    ensures
        r == defines(vars_view(vars@), key@),
{
    let mut i: usize = 0;
    while i < vars.len()
        invariant
            i <= vars.len(),
            forall|j: int| 0 <= j < i ==> vars_view(vars@)[j].0 != key@,
        decreases vars.len() - i,
    {
        if str_eq(vars[i].0.as_str(), key) {
            assert(vars_view(vars@)[i as int].0 == key@);
            return true;
        }
        i += 1;
    }
    false
}

/// Add the `key=value` lines of the substvars file `content` to `vars`; a
/// variable already defined keeps its first value.
pub fn read_substvars(content: &str, vars: &mut Vec<(String, String)>)
    ensures
        vars_view(final(vars)@) == add_substvars(vars_view(old(vars)@), lines(content@)),
{
    let ls = lines_of(content);
    let ghost all = lines(content@);
    let mut i: usize = 0;
    assert(all.skip(0) =~= all);
    while i < ls.len()
        invariant
            i <= ls.len(),
            views(ls@) == all,
            add_substvars(vars_view(old(vars)@), all) == add_substvars(vars_view(vars@), all.skip(i as int)),
        decreases ls.len() - i,
    {
        let line = ls[i];
        assert(all.skip(i as int)[0] == line@);
        assert(all.skip(i as int).drop_first() =~= all.skip(i + 1));
        let cs = chars_of(line);
        let mut k: usize = 0;
        while k < cs.len() && cs[k] != '='
            invariant
                k <= cs.len(),
                cs@ == line@,
                forall|j: int| 0 <= j < k ==> cs@[j] != '=',
            decreases cs.len() - k,
        {
            k += 1;
        }
        proof {
            lemma_first_eq(line@);
            lemma_first_eq_at(line@, k as int);
        }
        if k < cs.len() {
            let key = line.substring_char(0, k);
            let value = line.substring_char(k + 1, cs.len());
            assert(value@ =~= line@.skip(k + 1));
            if !defines_key(vars, key) {
                let ghost before = vars_view(vars@);
                vars.push((String::from_str(key), String::from_str(value)));
                assert(vars_view(vars@) =~= before.push((key@, value@)));
            }
        }
        i += 1;
    }
    assert(all.skip(i as int) =~= Seq::<Seq<char>>::empty());
}

/// The first `=` of `s` is at `k` when `k` is the first index holding one,
/// and there is none when no index before `s.len()` holds one.
pub proof fn lemma_first_eq_at(s: Seq<char>, k: int)
    requires
        0 <= k <= s.len(),
        forall|j: int| 0 <= j < k ==> s[j] != '=',
        k < s.len() ==> s[k] == '=',
    ensures
        if k < s.len() {
            first_eq(s) == Some(k)
        } else {
            first_eq(s) is None
        },
    decreases s.len(),
{
    if s.len() > 0 && k > 0 {
        assert forall|j: int| 0 <= j < k - 1 implies s.drop_first()[j] != '=' by {
            assert(s.drop_first()[j] == s[j + 1]);
        }
        if k < s.len() {
            assert(s.drop_first()[k - 1] == s[k]);
        }
        lemma_first_eq_at(s.drop_first(), k - 1);
    }
}

/// Once defined, a variable keeps its value whatever further lines say.
pub proof fn lemma_first_definition_wins(vars: Seq<(Seq<char>, Seq<char>)>, ls: Seq<Seq<char>>, i: int)
    requires
        0 <= i < vars.len(),
    ensures
        i < add_substvars(vars, ls).len(),
        add_substvars(vars, ls)[i] == vars[i],
    decreases ls.len(),
{
    if ls.len() > 0 {
        let next = match substvar_line(ls[0]) {
            Some(kv) => if defines(vars, kv.0) {
                vars
            } else {
                vars.push(kv)
            },
            None => vars,
        };
        assert(next[i] == vars[i]);
        lemma_first_definition_wins(next, ls.drop_first(), i);
    }
}

} // verus!
