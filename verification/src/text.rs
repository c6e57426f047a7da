//! Text primitives shared by the rest of the library: whitespace, ASCII case
//! folding, prefixes and suffixes, all stated over the `Seq<char>` view of a
//! string.

use vstd::prelude::*;

verus! {

/// The text is short enough for a syntax tree: its UTF-8 encoding has at
/// most `u32::MAX` bytes, so every offset in it is a `rowan::TextSize`.
pub open spec fn fits_text_size(text: Seq<char>) -> bool {
    vstd::utf8::encode_utf8(text).len() <= u32::MAX
}

/// Unicode `White_Space`, the set of characters for which
/// `char::is_whitespace` holds.
pub open spec fn is_ws(c: char) -> bool {
    let u = c as u32;
    ||| 0x09 <= u <= 0x0D
    ||| u == 0x20
    ||| u == 0x85
    ||| u == 0xA0
    ||| u == 0x1680
    ||| 0x2000 <= u <= 0x200A
    ||| u == 0x2028
    ||| u == 0x2029
    ||| u == 0x202F
    ||| u == 0x205F
    ||| u == 0x3000
}

/// Whether `c` is Unicode whitespace.
pub fn is_whitespace(c: char) -> (b: bool)
    ensures
        b == is_ws(c),
{
    let u = c as u32;
    (0x09 <= u && u <= 0x0D) || u == 0x20 || u == 0x85 || u == 0xA0 || u == 0x1680 || (0x2000
        <= u && u <= 0x200A) || u == 0x2028 || u == 0x2029 || u == 0x202F || u == 0x205F || u
        == 0x3000
}

/// The code of `c` with ASCII upper-case letters mapped to lower case.
pub open spec fn fold(c: char) -> int {
    if 'A' <= c && c <= 'Z' {
        (c as u32) as int + 32
    } else {
        (c as u32) as int
    }
}

/// `fold` in executable form.
pub fn fold_char(c: char) -> (r: u32)
    ensures
        r == fold(c),
{
    if 'A' <= c && c <= 'Z' {
        c as u32 + 32
    } else {
        c as u32
    }
}

/// Equality of two strings when ASCII letters are compared without regard to
/// case (`str::eq_ignore_ascii_case`).
pub open spec fn eq_ignore_ascii_case(a: Seq<char>, b: Seq<char>) -> bool {
    &&& a.len() == b.len()
    &&& forall|i: int| 0 <= i < a.len() ==> fold(#[trigger] a[i]) == fold(b[i])
}

/// `p` is a prefix of `s` once both are folded to ASCII lower case.
pub open spec fn is_prefix_ignore_ascii_case(p: Seq<char>, s: Seq<char>) -> bool {
    &&& p.len() <= s.len()
    &&& forall|i: int| 0 <= i < p.len() ==> fold(#[trigger] p[i]) == fold(s[i])
}

/// `s`, read as-is, starts with `p` folded to ASCII lower case.
pub open spec fn starts_with_lowered(s: Seq<char>, p: Seq<char>) -> bool {
    &&& p.len() <= s.len()
    &&& forall|i: int| 0 <= i < p.len() ==> (s[i] as u32) as int == fold(#[trigger] p[i])
}

/// The characters of `s`, in order.
pub fn chars_of(s: &str) -> (v: Vec<char>)
    ensures
        v@ == s@,
{
    let n = s.unicode_len();
    let mut v: Vec<char> = Vec::new();
    let mut i: usize = 0;
    while i < n
        invariant
            n == s@.len(),
            i <= n,
            v@ == s@.take(i as int),
        decreases n - i,
    {
        v.push(s.get_char(i));
        i += 1;
        assert(v@ =~= s@.take(i as int));
    }
    assert(v@ =~= s@);
    v
}

/// `str::eq_ignore_ascii_case`.
pub fn str_eq_ignore_ascii_case(a: &str, b: &str) -> (r: bool)
    ensures
        r == eq_ignore_ascii_case(a@, b@),
{
    let x = chars_of(a);
    let y = chars_of(b);
    if x.len() != y.len() {
        return false;
    }
    let mut i: usize = 0;
    while i < x.len()
        invariant
            x@ == a@,
            y@ == b@,
            x.len() == y.len(),
            i <= x.len(),
            forall|j: int| 0 <= j < i ==> fold(#[trigger] x@[j]) == fold(y@[j]),
        decreases x.len() - i,
    {
        if fold_char(x[i]) != fold_char(y[i]) {
            return false;
        }
        i += 1;
    }
    true
}

/// `str::starts_with` for a string prefix.
pub fn str_starts_with(s: &str, p: &str) -> (r: bool)
    ensures
        r == p@.is_prefix_of(s@),
{
    let x = chars_of(s);
    let y = chars_of(p);
    if y.len() > x.len() {
        return false;
    }
    let mut i: usize = 0;
    while i < y.len()
        invariant
            x@ == s@,
            y@ == p@,
            y.len() <= x.len(),
            i <= y.len(),
            forall|j: int| 0 <= j < i ==> x@[j] == y@[j],
        decreases y.len() - i,
    {
        if x[i] != y[i] {
            return false;
        }
        i += 1;
    }
    assert(s@.take(p@.len() as int) =~= p@);
    true
}

/// `str::ends_with` for a string suffix.
pub fn str_ends_with(s: &str, p: &str) -> (r: bool)
    ensures
        r == p@.is_suffix_of(s@),
{
    let x = chars_of(s);
    let y = chars_of(p);
    if y.len() > x.len() {
        return false;
    }
    let off = x.len() - y.len();
    let mut i: usize = 0;
    while i < y.len()
        invariant
            x@ == s@,
            y@ == p@,
            y.len() <= x.len(),
            off == x.len() - y.len(),
            i <= y.len(),
            forall|j: int| 0 <= j < i ==> x@[off + j] == y@[j],
        decreases y.len() - i,
    {
        if x[off + i] != y[i] {
            return false;
        }
        i += 1;
    }
    assert(s@.subrange(s@.len() - p@.len(), s@.len() as int) =~= p@);
    true
}

/// `s.to_ascii_lowercase().starts_with(&p.to_ascii_lowercase())`.
pub fn str_starts_with_ignore_ascii_case(s: &str, p: &str) -> (r: bool)
    ensures
        r == is_prefix_ignore_ascii_case(p@, s@),
{
    let x = chars_of(s);
    let y = chars_of(p);
    if y.len() > x.len() {
        return false;
    }
    let mut i: usize = 0;
    while i < y.len()
        invariant
            x@ == s@,
            y@ == p@,
            y.len() <= x.len(),
            i <= y.len(),
            forall|j: int| 0 <= j < i ==> fold(#[trigger] y@[j]) == fold(x@[j]),
        decreases y.len() - i,
    {
        if fold_char(x[i]) != fold_char(y[i]) {
            return false;
        }
        i += 1;
    }
    true
}

} // verus!

verus! {

/// Index just past the last whitespace character of `s`; 0 when `s` holds no
/// whitespace.
pub open spec fn word_start(s: Seq<char>) -> int
    decreases s.len(),
{
    if s.len() == 0 {
        0
    } else if is_ws(s.last()) {
        s.len() as int
    } else {
        word_start(s.drop_last())
    }
}

/// The number of leading whitespace characters of `s`.
pub open spec fn lead_ws(s: Seq<char>) -> int
    decreases s.len(),
{
    if s.len() > 0 && is_ws(s[0]) {
        1 + lead_ws(s.drop_first())
    } else {
        0
    }
}

/// Index where the trailing whitespace of `s` begins.
pub open spec fn trail_ws_start(s: Seq<char>) -> int
    decreases s.len(),
{
    if s.len() > 0 && is_ws(s.last()) {
        trail_ws_start(s.drop_last())
    } else {
        s.len() as int
    }
}

/// The number of leading copies of `c` in `s`.
pub open spec fn lead_run(s: Seq<char>, c: char) -> int
    decreases s.len(),
{
    if s.len() > 0 && s[0] == c {
        1 + lead_run(s.drop_first(), c)
    } else {
        0
    }
}

/// `str::trim_start`.
pub open spec fn trim_start(s: Seq<char>) -> Seq<char> {
    s.skip(lead_ws(s))
}

/// `str::trim_end`.
pub open spec fn trim_end(s: Seq<char>) -> Seq<char> {
    s.take(trail_ws_start(s))
}

/// `str::trim`.
pub open spec fn trim(s: Seq<char>) -> Seq<char> {
    trim_end(trim_start(s))
}

pub proof fn lemma_word_start(s: Seq<char>)
    ensures
        0 <= word_start(s) <= s.len(),
        forall|j: int| word_start(s) <= j < s.len() ==> !is_ws(#[trigger] s[j]),
        word_start(s) > 0 ==> is_ws(s[word_start(s) - 1]),
    decreases s.len(),
{
    if s.len() > 0 && !is_ws(s.last()) {
        lemma_word_start(s.drop_last());
        assert forall|j: int| word_start(s) <= j < s.len() implies !is_ws(#[trigger] s[j]) by {
            if j < s.len() - 1 {
                assert(s[j] == s.drop_last()[j]);
            }
        }
    }
}

pub proof fn lemma_lead_ws(s: Seq<char>)
    ensures
        0 <= lead_ws(s) <= s.len(),
        forall|j: int| 0 <= j < lead_ws(s) ==> is_ws(#[trigger] s[j]),
        lead_ws(s) < s.len() ==> !is_ws(s[lead_ws(s)]),
    decreases s.len(),
{
    if s.len() > 0 && is_ws(s[0]) {
        lemma_lead_ws(s.drop_first());
        assert forall|j: int| 0 <= j < lead_ws(s) implies is_ws(#[trigger] s[j]) by {
            if j > 0 {
                assert(s[j] == s.drop_first()[j - 1]);
            }
        }
    }
}

pub proof fn lemma_trail_ws_start(s: Seq<char>)
    ensures
        0 <= trail_ws_start(s) <= s.len(),
        forall|j: int| trail_ws_start(s) <= j < s.len() ==> is_ws(#[trigger] s[j]),
        trail_ws_start(s) > 0 ==> !is_ws(s[trail_ws_start(s) - 1]),
    decreases s.len(),
{
    if s.len() > 0 && is_ws(s.last()) {
        lemma_trail_ws_start(s.drop_last());
        assert forall|j: int| trail_ws_start(s) <= j < s.len() implies is_ws(#[trigger] s[j]) by {
            if j < s.len() - 1 {
                assert(s[j] == s.drop_last()[j]);
            }
        }
    }
}

pub proof fn lemma_lead_run(s: Seq<char>, c: char)
    ensures
        0 <= lead_run(s, c) <= s.len(),
    decreases s.len(),
{
    if s.len() > 0 && s[0] == c {
        lemma_lead_run(s.drop_first(), c);
    }
}

/// The index just past the last whitespace character of the first `k`
/// characters of `cs`.
pub fn word_start_in(cs: &Vec<char>, k: usize) -> (r: usize)
    requires
        k <= cs.len(),
    ensures
        r == word_start(cs@.take(k as int)),
{
    let mut j = k;
    while j > 0 && !is_whitespace(cs[j - 1])
        invariant
            j <= k <= cs.len(),
            word_start(cs@.take(k as int)) == word_start(cs@.take(j as int)),
        decreases j,
    {
        assert(cs@.take(j as int).drop_last() =~= cs@.take(j - 1));
        j -= 1;
    }
    if j > 0 {
        assert(cs@.take(j as int).last() == cs@[j - 1]);
    }
    j
}

/// The number of leading whitespace characters of `cs` from index `from` on.
pub fn lead_ws_from(cs: &Vec<char>, from: usize) -> (r: usize)
    requires
        from <= cs.len(),
    ensures
        from + r <= cs.len(),
        r == lead_ws(cs@.skip(from as int)),
{
    let mut j = from;
    while j < cs.len() && is_whitespace(cs[j])
        invariant
            from <= j <= cs.len(),
            lead_ws(cs@.skip(from as int)) == (j - from) + lead_ws(cs@.skip(j as int)),
        decreases cs.len() - j,
    {
        assert(cs@.skip(j as int).drop_first() =~= cs@.skip(j + 1));
        j += 1;
    }
    j - from
}

/// Where the trailing whitespace of the first `k` characters of `cs` begins.
pub fn trail_ws_start_in(cs: &Vec<char>, k: usize) -> (r: usize)
    requires
        k <= cs.len(),
    ensures
        r == trail_ws_start(cs@.take(k as int)),
{
    let mut j = k;
    while j > 0 && is_whitespace(cs[j - 1])
        invariant
            j <= k <= cs.len(),
            trail_ws_start(cs@.take(k as int)) == trail_ws_start(cs@.take(j as int)),
        decreases j,
    {
        assert(cs@.take(j as int).drop_last() =~= cs@.take(j - 1));
        j -= 1;
    }
    j
}

/// `str::trim_start_matches` with a single character.
pub fn trim_start_char(s: &str, c: char) -> (r: &str)
    ensures
        r@ == s@.skip(lead_run(s@, c)),
{
    let cs = chars_of(s);
    let mut j: usize = 0;
    proof {
        lemma_lead_run(s@, c);
    }
    assert(s@.skip(0) =~= s@);
    while j < cs.len() && cs[j] == c
        invariant
            j <= cs.len(),
            cs@ == s@,
            lead_run(s@, c) == j + lead_run(s@.skip(j as int), c),
        decreases cs.len() - j,
    {
        assert(s@.skip(j as int).drop_first() =~= s@.skip(j + 1));
        j += 1;
    }
    s.substring_char(j, cs.len())
}

/// `str::trim`.
pub fn str_trim(s: &str) -> (r: &str)
    ensures
        r@ == trim(s@),
{
    let cs = chars_of(s);
    let a = lead_ws_from(&cs, 0);
    assert(cs@.skip(0) =~= s@);
    assert(s@.subrange(a as int, cs.len() as int) =~= s@.skip(a as int));
    let mut b = cs.len();
    while b > a && is_whitespace(cs[b - 1])
        invariant
            a <= b <= cs.len(),
            cs@ == s@,
            a == lead_ws(s@),
            trail_ws_start(s@.skip(a as int)) == trail_ws_start(s@.subrange(a as int, b as int)),
        decreases b,
    {
        assert(s@.subrange(a as int, b as int).drop_last() =~= s@.subrange(a as int, b - 1));
        b -= 1;
    }
    assert(s@.subrange(a as int, cs.len() as int) =~= s@.skip(a as int));
    proof {
        lemma_trail_ws_start(s@.subrange(a as int, b as int));
    }
    assert(trim(s@) =~= s@.subrange(a as int, b as int));
    s.substring_char(a, b)
}

} // verus!

verus! {

/// Index of the first `'\n'` of `s`, or `s.len()` when there is none.
pub open spec fn first_nl(s: Seq<char>) -> int
    decreases s.len(),
{
    if s.len() == 0 {
        0
    } else if s[0] == '\n' {
        0
    } else {
        1 + first_nl(s.drop_first())
    }
}

pub proof fn lemma_first_nl(s: Seq<char>)
    ensures
        0 <= first_nl(s) <= s.len(),
        first_nl(s) < s.len() ==> s[first_nl(s)] == '\n',
        forall|j: int| 0 <= j < first_nl(s) ==> #[trigger] s[j] != '\n',
    decreases s.len(),
{
    if s.len() > 0 && s[0] != '\n' {
        lemma_first_nl(s.drop_first());
        assert forall|j: int| 0 <= j < first_nl(s) implies #[trigger] s[j] != '\n' by {
            if j > 0 {
                assert(s[j] == s.drop_first()[j - 1]);
            }
        }
    }
}

/// A line terminated by `'\n'` loses a `'\r'` that stood before it.
pub open spec fn strip_cr(l: Seq<char>) -> Seq<char> {
    if l.len() > 0 && l.last() == '\r' {
        l.drop_last()
    } else {
        l
    }
}

/// The first line of a non-empty `s`, without its line ending.
pub open spec fn first_line(s: Seq<char>) -> Seq<char> {
    if first_nl(s) < s.len() {
        strip_cr(s.take(first_nl(s)))
    } else {
        s
    }
}

/// What follows the first line of `s` and its line ending.
pub open spec fn after_first_line(s: Seq<char>) -> Seq<char> {
    if first_nl(s) < s.len() {
        s.skip(first_nl(s) + 1)
    } else {
        seq![]
    }
}

/// `str::lines`: the lines of `s`, split at `"\n"` or `"\r\n"`; a final
/// line ending is optional and no empty line follows it.
pub open spec fn lines(s: Seq<char>) -> Seq<Seq<char>>
    decreases s.len(),
{
    if s.len() == 0 {
        seq![]
    } else {
        proof {
            lemma_first_nl(s);
        }
        seq![first_line(s)] + lines(after_first_line(s))
    }
}

/// Line `n` of `s`, or the empty string when `s` has fewer lines
/// (`s.lines().nth(n).unwrap_or("")`).
pub open spec fn nth_line(s: Seq<char>, n: int) -> Seq<char> {
    if 0 <= n < lines(s).len() {
        lines(s)[n]
    } else {
        seq![]
    }
}

/// Index of the first `'\n'` of `cs` at or after `from`, or `cs.len()`.
pub fn find_nl(cs: &Vec<char>, from: usize) -> (r: usize)
    requires
        from <= cs.len(),
    ensures
        r == from + first_nl(cs@.skip(from as int)),
{
    let mut j = from;
    assert(cs@.skip(from as int).skip(0) =~= cs@.skip(from as int));
    while j < cs.len() && cs[j] != '\n'
        invariant
            from <= j <= cs.len(),
            first_nl(cs@.skip(from as int)) == (j - from) + first_nl(cs@.skip(j as int)),
        decreases cs.len() - j,
    {
        assert(cs@.skip(j as int).drop_first() =~= cs@.skip(j + 1));
        j += 1;
    }
    j
}

/// `s.lines().nth(n).unwrap_or("")`.
pub fn line_at(s: &str, n: usize) -> (r: &str)
    ensures
        r@ == nth_line(s@, n as int),
{
    let cs = chars_of(s);
    let len = cs.len();
    let mut pos: usize = 0;
    let mut row: usize = 0;
    assert(s@.skip(0) =~= s@);
    assert(lines(s@).skip(0) =~= lines(s@));
    while row < n
        invariant
            cs@ == s@,
            len == cs.len(),
            pos <= len,
            row <= n,
            row <= lines(s@).len(),
            lines(s@).skip(row as int) == lines(s@.skip(pos as int)),
        decreases n - row,
    {
        if pos == len {
            assert(s@.skip(pos as int) =~= Seq::<char>::empty());
            assert(lines(s@).skip(row as int).len() == 0);
            return s.substring_char(pos, pos);
        }
        let k = find_nl(&cs, pos);
        let ghost t = s@.skip(pos as int);
        proof {
            lemma_first_nl(t);
            assert(lines(t).skip(1) =~= lines(after_first_line(t)));
            assert(lines(t).len() >= 1);
        }
        if k < len {
            assert(after_first_line(t) =~= s@.skip(k + 1));
            pos = k + 1;
        } else {
            assert(after_first_line(t) =~= s@.skip(len as int));
            pos = len;
        }
        assert(lines(s@).skip(row + 1) =~= lines(s@).skip(row as int).skip(1));
        row += 1;
    }
    if pos == len {
        assert(s@.skip(pos as int) =~= Seq::<char>::empty());
        assert(lines(s@).skip(row as int).len() == 0);
        return s.substring_char(pos, pos);
    }
    let k = find_nl(&cs, pos);
    let ghost t = s@.skip(pos as int);
    proof {
        lemma_first_nl(t);
        assert(lines(t).len() >= 1);
        assert(lines(t)[0] == first_line(t));
        assert(lines(s@).skip(n as int)[0] == lines(s@)[n as int]);
    }
    if k < len && k > pos && cs[k - 1] == '\r' {
        assert(first_line(t) =~= s@.subrange(pos as int, k - 1));
        s.substring_char(pos, k - 1)
    } else if k < len {
        assert(first_line(t) =~= s@.subrange(pos as int, k as int));
        s.substring_char(pos, k)
    } else {
        assert(first_line(t) =~= s@.subrange(pos as int, k as int));
        s.substring_char(pos, k)
    }
}

} // verus!

verus! {

/// Filtering and mapping a sequence extended by one element.
pub proof fn lemma_filter_map_push<A, B>(
    s: Seq<A>,
    x: A,
    p: spec_fn(A) -> bool,
    f: spec_fn(A) -> B,
)
    ensures
        s.push(x).filter(p).map_values(f) == (if p(x) {
            s.filter(p).map_values(f).push(f(x))
        } else {
            s.filter(p).map_values(f)
        }),
{
    s.lemma_filter_push(x, p);
    if p(x) {
        assert(s.filter(p).push(x).map_values(f) =~= s.filter(p).map_values(f).push(f(x)));
    }
}

/// A sequence with its first `i + 1` elements taken.
pub proof fn lemma_take_succ<A>(s: Seq<A>, i: int)
    requires
        0 <= i < s.len(),
    ensures
        s.take(i + 1) == s.take(i).push(s[i]),
{
    assert(s.take(i + 1) =~= s.take(i).push(s[i]));
}

} // verus!

verus! {

/// `a == b` for string slices.
pub fn str_eq(a: &str, b: &str) -> (r: bool)
    ensures
        r == (a@ == b@),
{
    let x = chars_of(a);
    let y = chars_of(b);
    if x.len() != y.len() {
        return false;
    }
    let mut i: usize = 0;
    while i < x.len()
        invariant
            x@ == a@,
            y@ == b@,
            x.len() == y.len(),
            i <= x.len(),
            forall|j: int| 0 <= j < i ==> x@[j] == y@[j],
        decreases x.len() - i,
    {
        if x[i] != y[i] {
            return false;
        }
        i += 1;
    }
    assert(a@ =~= b@);
    true
}

} // verus!

verus! {

/// Index just past the last `c` of `s`; 0 when `s` holds no `c`.
pub open spec fn after_last(s: Seq<char>, c: char) -> int
    decreases s.len(),
{
    if s.len() == 0 {
        0
    } else if s.last() == c {
        s.len() as int
    } else {
        after_last(s.drop_last(), c)
    }
}

pub proof fn lemma_after_last(s: Seq<char>, c: char)
    ensures
        0 <= after_last(s, c) <= s.len(),
        after_last(s, c) > 0 ==> s[after_last(s, c) - 1] == c,
        forall|j: int| after_last(s, c) <= j < s.len() ==> #[trigger] s[j] != c,
    decreases s.len(),
{
    if s.len() > 0 && s.last() != c {
        lemma_after_last(s.drop_last(), c);
        assert forall|j: int| after_last(s, c) <= j < s.len() implies #[trigger] s[j] != c by {
            if j < s.len() - 1 {
                assert(s[j] == s.drop_last()[j]);
            }
        }
    }
}

/// Index just past the last `c` among the first `k` characters of `cs`.
pub fn after_last_in(cs: &Vec<char>, k: usize, c: char) -> (r: usize)
    requires
        k <= cs.len(),
    ensures
        r == after_last(cs@.take(k as int), c),
        r <= k,
{
    let mut j = k;
    while j > 0 && cs[j - 1] != c
        invariant
            j <= k <= cs.len(),
            after_last(cs@.take(k as int), c) == after_last(cs@.take(j as int), c),
        decreases j,
    {
        assert(cs@.take(j as int).drop_last() =~= cs@.take(j - 1));
        j -= 1;
    }
    if j > 0 {
        assert(cs@.take(j as int).last() == cs@[j - 1]);
    }
    j
}

/// `a` followed by `b`.
pub fn concat(a: &str, b: &str) -> (r: String)
    ensures
        r@ == a@ + b@,
{
    let mut s = String::from_str(a);
    s.append(b);
    s
}

} // verus!

verus! {

/// The number of leading characters of `s` that are not whitespace.
pub open spec fn word_len(s: Seq<char>) -> int
    decreases s.len(),
{
    if s.len() > 0 && !is_ws(s[0]) {
        1 + word_len(s.drop_first())
    } else {
        0
    }
}

pub proof fn lemma_word_len(s: Seq<char>)
    ensures
        0 <= word_len(s) <= s.len(),
        forall|j: int| 0 <= j < word_len(s) ==> !is_ws(#[trigger] s[j]),
        word_len(s) < s.len() ==> is_ws(s[word_len(s)]),
    decreases s.len(),
{
    if s.len() > 0 && !is_ws(s[0]) {
        lemma_word_len(s.drop_first());
        assert forall|j: int| 0 <= j < word_len(s) implies !is_ws(#[trigger] s[j]) by {
            if j > 0 {
                assert(s[j] == s.drop_first()[j - 1]);
            }
        }
    }
}

/// `str::split_whitespace`: the maximal runs of non-whitespace characters.
pub open spec fn words(s: Seq<char>) -> Seq<Seq<char>>
    decreases s.len(),
{
    proof {
        lemma_lead_ws(s);
    }
    let t = s.skip(lead_ws(s));
    if t.len() == 0 {
        seq![]
    } else {
        proof {
            lemma_word_len(t);
            assert(t[0] == s[lead_ws(s)]);
        }
        seq![t.take(word_len(t))] + words(t.skip(word_len(t)))
    }
}

/// The number of non-whitespace characters of `cs` from index `from` on,
/// up to the next whitespace character.
pub fn word_len_from(cs: &Vec<char>, from: usize) -> (r: usize)
    requires
        from <= cs.len(),
    ensures
        from + r <= cs.len(),
        r == word_len(cs@.skip(from as int)),
{
    let mut j = from;
    while j < cs.len() && !is_whitespace(cs[j])
        invariant
            from <= j <= cs.len(),
            word_len(cs@.skip(from as int)) == (j - from) + word_len(cs@.skip(j as int)),
        decreases cs.len() - j,
    {
        assert(cs@.skip(j as int).drop_first() =~= cs@.skip(j + 1));
        j += 1;
    }
    j - from
}

/// The views of a list of string slices.
pub open spec fn views(v: Seq<&str>) -> Seq<Seq<char>> {
    v.map_values(|w: &str| w@)
}

/// `s.split_whitespace().collect()`.
pub fn split_words(s: &str) -> (r: Vec<&str>)
    ensures
        views(r@) == words(s@),
{
    let cs = chars_of(s);
    let len = cs.len();
    let mut r: Vec<&str> = Vec::new();
    let mut pos: usize = 0;
    assert(s@.skip(0) =~= s@);
    while pos < len
        invariant
            cs@ == s@,
            len == cs.len(),
            pos <= len,
            words(s@) == views(r@) + words(s@.skip(pos as int)),
        decreases len - pos,
    {
        let ghost u = s@.skip(pos as int);
        let k = lead_ws_from(&cs, pos);
        proof {
            lemma_lead_ws(u);
        }
        let start = pos + k;
        assert(u.skip(lead_ws(u)) =~= s@.skip(start as int));
        if start == len {
            assert(words(u) =~= Seq::<Seq<char>>::empty());
            assert(s@.skip(len as int) =~= Seq::<char>::empty());
            assert(views(r@) + words(u) =~= views(r@) + words(s@.skip(len as int)));
            pos = len;
        } else {
            let w = word_len_from(&cs, start);
            let ghost t = s@.skip(start as int);
            proof {
                lemma_word_len(t);
                lemma_lead_ws(u);
            }
            let word = s.substring_char(start, start + w);
            assert(word@ =~= t.take(word_len(t)));
            assert(t.skip(word_len(t)) =~= s@.skip(start + w));
            assert(words(u) == seq![word@] + words(s@.skip(start + w)));
            r.push(word);
            assert(views(r@) =~= views(r@.drop_last()).push(word@));
            assert(views(r@) + words(s@.skip(start + w)) =~= views(r@.drop_last()) + words(u));
            pos = start + w;
        }
    }
    assert(s@.skip(len as int) =~= Seq::<char>::empty());
    assert(views(r@) + words(s@.skip(len as int)) =~= views(r@));
    r
}

/// `s.lines().collect()`.
pub fn lines_of(s: &str) -> (r: Vec<&str>)
    ensures
        views(r@) == lines(s@),
{
    let cs = chars_of(s);
    let len = cs.len();
    let mut r: Vec<&str> = Vec::new();
    let mut pos: usize = 0;
    assert(s@.skip(0) =~= s@);
    while pos < len
        invariant
            cs@ == s@,
            len == cs.len(),
            pos <= len,
            lines(s@) == views(r@) + lines(s@.skip(pos as int)),
        decreases len - pos,
    {
        let ghost t = s@.skip(pos as int);
        let k = find_nl(&cs, pos);
        proof {
            lemma_first_nl(t);
        }
        let line = if k < len && k > pos && cs[k - 1] == '\r' {
            s.substring_char(pos, k - 1)
        } else {
            s.substring_char(pos, k)
        };
        assert(line@ =~= first_line(t));
        let next = if k < len {
            k + 1
        } else {
            len
        };
        assert(after_first_line(t) =~= s@.skip(next as int));
        assert(lines(t) == seq![line@] + lines(s@.skip(next as int)));
        r.push(line);
        assert(views(r@) =~= views(r@.drop_last()).push(line@));
        assert(views(r@) + lines(s@.skip(next as int)) =~= views(r@.drop_last()) + lines(t));
        pos = next;
    }
    assert(s@.skip(len as int) =~= Seq::<char>::empty());
    assert(views(r@) + lines(s@.skip(len as int)) =~= views(r@));
    r
}

/// The number of UTF-16 code units that encode `s`.
pub open spec fn utf16_len(s: Seq<char>) -> int
    decreases s.len(),
{
    if s.len() == 0 {
        0
    } else {
        utf16_len(s.drop_last()) + if (s.last() as u32) >= 0x10000 {
            2int
        } else {
            1int
        }
    }
}

pub proof fn lemma_utf16_len(s: Seq<char>)
    ensures
        s.len() <= utf16_len(s) <= 2 * s.len(),
    decreases s.len(),
{
    if s.len() > 0 {
        lemma_utf16_len(s.drop_last());
    }
}

/// The length of `s` in UTF-16 code units.
pub fn utf16_len_of(s: &str) -> (r: usize)
    requires
        2 * s@.len() <= usize::MAX,
    ensures
        r == utf16_len(s@),
{
    let cs = chars_of(s);
    let mut n: usize = 0;
    let mut i: usize = 0;
    while i < cs.len()
        invariant
            cs@ == s@,
            2 * s@.len() <= usize::MAX,
            i <= cs.len(),
            n == utf16_len(s@.take(i as int)),
        decreases cs.len() - i,
    {
        proof {
            lemma_utf16_len(s@.take(i as int));
            assert(s@.take(i + 1).drop_last() =~= s@.take(i as int));
        }
        if cs[i] as u32 >= 0x10000 {
            n = n + 2;
        } else {
            n = n + 1;
        }
        i += 1;
    }
    assert(s@.take(cs.len() as int) =~= s@);
    n
}

} // verus!

verus! {

/// `str::lines` gives no more lines than characters, and no line longer
/// than the whole text.
pub proof fn lemma_lines_bounds(s: Seq<char>)
    ensures
        lines(s).len() <= s.len(),
        forall|i: int| 0 <= i < lines(s).len() ==> (#[trigger] lines(s)[i]).len() <= s.len(),
    decreases s.len(),
{
    if s.len() > 0 {
        lemma_first_nl(s);
        let rest = after_first_line(s);
        lemma_lines_bounds(rest);
        assert forall|i: int| 0 <= i < lines(s).len() implies (#[trigger] lines(s)[i]).len()
            <= s.len() by {
            if i > 0 {
                assert(lines(s)[i] == lines(rest)[i - 1]);
            }
        }
    }
}

/// A line of `s` is no longer than `s`.
pub proof fn lemma_nth_line_len(s: Seq<char>, n: int)
    ensures
        nth_line(s, n).len() <= s.len(),
{
    lemma_lines_bounds(s);
    if 0 <= n < lines(s).len() {
        assert(nth_line(s, n) == lines(s)[n]);
    }
}

} // verus!

verus! {

/// The decimal digits, in order.
pub open spec fn digits() -> Seq<char> {
    seq!['0', '1', '2', '3', '4', '5', '6', '7', '8', '9']
}

/// The decimal representation of `n`, without leading zeros.
pub open spec fn decimal(n: nat) -> Seq<char>
    decreases n,
{
    if n < 10 {
        seq![digits()[n as int]]
    } else {
        decimal(n / 10).push(digits()[(n % 10) as int])
    }
}

/// The one-character string of digit `d`.
fn digit_str(d: u64) -> (r: &'static str)
    requires
        d < 10,
    ensures
        r@ == seq![digits()[d as int]],
{
    proof {
        reveal_strlit("0");
        reveal_strlit("1");
        reveal_strlit("2");
        reveal_strlit("3");
        reveal_strlit("4");
        reveal_strlit("5");
        reveal_strlit("6");
        reveal_strlit("7");
        reveal_strlit("8");
        reveal_strlit("9");
    }
    let r = match d {
        0 => "0",
        1 => "1",
        2 => "2",
        3 => "3",
        4 => "4",
        5 => "5",
        6 => "6",
        7 => "7",
        8 => "8",
        _ => "9",
    };
    assert(r@ =~= seq![digits()[d as int]]);
    r
}

/// `n.to_string()`.
pub fn decimal_string(n: u64) -> (r: String)
    ensures
        r@ == decimal(n as nat),
    decreases n,
{
    if n < 10 {
        String::from_str(digit_str(n))
    } else {
        let mut s = decimal_string(n / 10);
        s.append(digit_str(n % 10));
        s
    }
}

/// The decimal representation of an integer, with a `-` when negative.
pub open spec fn signed_decimal(n: int) -> Seq<char> {
    if n < 0 {
        seq!['-'] + decimal((-n) as nat)
    } else {
        decimal(n as nat)
    }
}

/// `n.to_string()` for an `i32`.
pub fn i32_string(n: i32) -> (r: String)
    ensures
        r@ == signed_decimal(n as int),
{
    if n < 0 {
        let m = (0i64 - (n as i64)) as u64;
        proof {
            reveal_strlit("-");
        }
        let mut s = String::from_str("-");
        s.append(decimal_string(m).as_str());
        s
    } else {
        decimal_string(n as u64)
    }
}

} // verus!
