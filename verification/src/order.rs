//! The order of strings by their characters' code points, which for UTF-8
//! text is also the byte order that `String`'s `Ord` uses, and sorting
//! names by it.

use vstd::prelude::*;
use crate::text::{chars_of, str_eq};

verus! {

/// `a` comes strictly before `b` in lexicographic order of code points.
pub open spec fn seq_lt(a: Seq<char>, b: Seq<char>) -> bool
    decreases a.len(),
{
    if a.len() == 0 {
        b.len() > 0
    } else if b.len() == 0 {
        false
    } else if a[0] != b[0] {
        a[0] < b[0]
    } else {
        seq_lt(a.drop_first(), b.drop_first())
    }
}

/// No string comes before itself.
pub proof fn lemma_seq_lt_irreflexive(a: Seq<char>)
    ensures
        !seq_lt(a, a),
    decreases a.len(),
{
    if a.len() > 0 {
        lemma_seq_lt_irreflexive(a.drop_first());
    }
}

/// Of two different strings, one comes before the other, and not both ways.
pub proof fn lemma_seq_lt_total(a: Seq<char>, b: Seq<char>)
    ensures
        a != b ==> (seq_lt(a, b) || seq_lt(b, a)),
        !(seq_lt(a, b) && seq_lt(b, a)),
    decreases a.len(),
{
    if a.len() > 0 && b.len() > 0 && a[0] == b[0] {
        lemma_seq_lt_total(a.drop_first(), b.drop_first());
        if a != b {
            assert(a.drop_first() != b.drop_first()) by {
                if a.drop_first() == b.drop_first() {
                    assert(a =~= seq![a[0]] + a.drop_first());
                    assert(b =~= seq![b[0]] + b.drop_first());
                }
            }
        }
    } else if a.len() == 0 && b.len() == 0 {
        assert(a =~= b);
    }
}

/// The order is transitive.
pub proof fn lemma_seq_lt_transitive(a: Seq<char>, b: Seq<char>, c: Seq<char>)
    requires
        seq_lt(a, b),
        seq_lt(b, c),
    ensures
        seq_lt(a, c),
    decreases a.len(),
{
    if a.len() > 0 && b.len() > 0 && c.len() > 0 && a[0] == b[0] && b[0] == c[0] {
        lemma_seq_lt_transitive(a.drop_first(), b.drop_first(), c.drop_first());
    }
}

/// Whether `a` comes strictly before `b`.
pub fn str_lt(a: &str, b: &str) -> (r: bool)
    ensures
        r == seq_lt(a@, b@),
{
    let x = chars_of(a);
    let y = chars_of(b);
    let mut i: usize = 0;
    assert(a@.skip(0) =~= a@);
    assert(b@.skip(0) =~= b@);
    while i < x.len() && i < y.len() && x[i] == y[i]
        invariant
            x@ == a@,
            y@ == b@,
            i <= x.len(),
            i <= y.len(),
            seq_lt(a@, b@) == seq_lt(a@.skip(i as int), b@.skip(i as int)),
        decreases x.len() - i,
    {
        assert(a@.skip(i as int).drop_first() =~= a@.skip(i + 1));
        assert(b@.skip(i as int).drop_first() =~= b@.skip(i + 1));
        i += 1;
    }
    if i == x.len() {
        i < y.len()
    } else if i == y.len() {
        false
    } else {
        x[i] < y[i]
    }
}

/// The views of a list of strings.
pub open spec fn names(v: Seq<String>) -> Seq<Seq<char>> {
    v.map_values(|s: String| s@)
}

/// Every string of `s` comes strictly before the ones after it.
pub open spec fn strictly_sorted(s: Seq<Seq<char>>) -> bool {
    forall|i: int, j: int| 0 <= i < j < s.len() ==> seq_lt(#[trigger] s[i], #[trigger] s[j])
}

/// The strings of `v`, each once, in order: `v` sorted, duplicates dropped.
pub fn sorted_unique(v: &Vec<String>) -> (r: Vec<String>)
    ensures
        strictly_sorted(names(r@)),
        forall|x: Seq<char>| names(r@).contains(x) <==> names(v@).contains(x),
{
    let ghost vv = names(v@);
    let mut r: Vec<String> = Vec::new();
    let mut i: usize = 0;
    while i < v.len()
        invariant
            i <= v.len(),
            vv == names(v@),
            strictly_sorted(names(r@)),
            forall|x: Seq<char>| names(r@).contains(x) <==> vv.take(i as int).contains(x),
        decreases v.len() - i,
    {
        let ghost rv = names(r@);
        let item = v[i].as_str();
        assert(vv[i as int] == item@);
        let mut k: usize = 0;
        while k < r.len() && str_lt(r[k].as_str(), item)
            invariant
                k <= r.len(),
                rv == names(r@),
                forall|j: int| 0 <= j < k ==> seq_lt(#[trigger] rv[j], item@),
            decreases r.len() - k,
        {
            k += 1;
        }
        assert(vv.take(i + 1) =~= vv.take(i as int).push(item@));
        if k < r.len() && str_eq(r[k].as_str(), item) {
            assert(rv[k as int] == item@);
            assert forall|x: Seq<char>| names(r@).contains(x) <==> vv.take(i + 1).contains(x) by {
                assert(rv.contains(x) <==> vv.take(i as int).contains(x));
                if x == item@ {
                    assert(names(r@)[k as int] == x);
                    assert(vv.take(i + 1)[i as int] == x);
                }
                if vv.take(i as int).contains(x) {
                    let ti = vv.take(i as int);
                    let j = choose|j: int| 0 <= j < i && ti[j] == x;
                    assert(vv.take(i + 1)[j] == x);
                }
                if vv.take(i + 1).contains(x) && x != item@ {
                    let tn = vv.take(i + 1);
                    let j = choose|j: int| 0 <= j < i + 1 && tn[j] == x;
                    assert(vv.take(i as int)[j] == x);
                }
            }
        } else {
            proof {
                if k < r.len() {
                    lemma_seq_lt_total(rv[k as int], item@);
                }
            }
            let ghost before = r@;
            r.insert(k, String::from_str(item));
            assert(names(r@) =~= rv.insert(k as int, item@));
            proof {
                let nv = names(r@);
                assert forall|a: int, b: int| 0 <= a < b < nv.len() implies seq_lt(
                    #[trigger] nv[a],
                    #[trigger] nv[b],
                ) by {
                    if b < k {
                        assert(nv[a] == rv[a] && nv[b] == rv[b]);
                    } else if b == k {
                        assert(nv[a] == rv[a]);
                    } else if a == k {
                        assert(nv[b] == rv[b - 1]);
                        if b - 1 > k {
                            lemma_seq_lt_transitive(item@, rv[k as int], rv[b - 1]);
                        }
                    } else if a < k {
                        assert(nv[a] == rv[a] && nv[b] == rv[b - 1]);
                    } else {
                        assert(nv[a] == rv[a - 1] && nv[b] == rv[b - 1]);
                    }
                }
                assert forall|x: Seq<char>| nv.contains(x) <==> vv.take(i + 1).contains(x) by {
                    assert(rv.contains(x) <==> vv.take(i as int).contains(x));
                    if x == item@ {
                        assert(nv[k as int] == x);
                        assert(vv.take(i + 1)[i as int] == x);
                    }
                    if nv.contains(x) && x != item@ {
                        let j = choose|j: int| 0 <= j < nv.len() && nv[j] == x;
                        if j < k {
                            assert(rv[j] == x);
                        } else {
                            assert(rv[j - 1] == x);
                        }
                    }
                    if rv.contains(x) {
                        let j = choose|j: int| 0 <= j < rv.len() && rv[j] == x;
                        if j < k {
                            assert(nv[j] == x);
                        } else {
                            assert(nv[j + 1] == x);
                        }
                    }
                    if vv.take(i as int).contains(x) {
                        let ti = vv.take(i as int);
                    let j = choose|j: int| 0 <= j < i && ti[j] == x;
                        assert(vv.take(i + 1)[j] == x);
                    }
                    if vv.take(i + 1).contains(x) && x != item@ {
                        let tn = vv.take(i + 1);
                    let j = choose|j: int| 0 <= j < i + 1 && tn[j] == x;
                        assert(vv.take(i as int)[j] == x);
                    }
                }
            }
        }
        i += 1;
    }
    assert(vv.take(v.len() as int) =~= vv);
    r
}

} // verus!
