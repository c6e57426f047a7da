//! Byte offsets of document positions, with columns counted in bytes, as the
//! lintian-overrides and quilt-series support does for its ASCII content.

use vstd::prelude::*;
use vstd::utf8::{decode_utf8, encode_utf8, is_char_boundary};
use vstd::string::StringSliceAdditionalSpecFns;
use crate::lsp::{Position, Range};
use crate::text::{after_last, chars_of, find_nl, first_nl, lemma_first_nl, utf16_len};

verus! {

/// Index of the first `b'\n'` of `b`, or `b.len()` when there is none.
pub open spec fn first_nl_byte(b: Seq<u8>) -> int
    decreases b.len(),
{
    if b.len() == 0 {
        0
    } else if b[0] == 10u8 {
        0
    } else {
        1 + first_nl_byte(b.drop_first())
    }
}

pub proof fn lemma_first_nl_byte(b: Seq<u8>)
    ensures
        0 <= first_nl_byte(b) <= b.len(),
    decreases b.len(),
{
    if b.len() > 0 && b[0] != 10u8 {
        lemma_first_nl_byte(b.drop_first());
    }
}

/// The length of the first piece of `str::split_inclusive('\n')` of `b`.
pub open spec fn segment_len(b: Seq<u8>) -> int {
    if first_nl_byte(b) < b.len() {
        first_nl_byte(b) + 1
    } else {
        b.len() as int
    }
}

/// The byte offset of column `ch` of line `line` in `b`: the column is
/// clamped to the line, its line ending included; past the last line the
/// column is added to the length of `b`.
pub open spec fn byte_offset_at(b: Seq<u8>, line: int, ch: int) -> int
    decreases b.len(),
{
    if b.len() == 0 {
        ch
    } else {
        proof {
            lemma_first_nl_byte(b);
        }
        if line == 0 {
            if ch < segment_len(b) {
                ch
            } else {
                segment_len(b)
            }
        } else {
            segment_len(b) + byte_offset_at(b.skip(segment_len(b)), line - 1, ch)
        }
    }
}

/// Byte offset into `text` for a position whose column counts bytes.
pub fn offset_at(text: &str, position: Position) -> (r: usize)
    requires
        text.spec_bytes().len() + position.character <= usize::MAX,
    ensures
        r == byte_offset_at(text.spec_bytes(), position.line as int, position.character as int),
{
    let b = text.as_bytes();
    let len = b.len();
    let ch = position.character as usize;
    let mut i: usize = 0;
    let mut row: u32 = 0;
    assert(b@.skip(0) =~= b@);
    while i < len
        invariant
            b@ == text.spec_bytes(),
            len == b@.len(),
            len + ch <= usize::MAX,
            ch == position.character,
            i <= len,
            row <= position.line,
            byte_offset_at(b@, position.line as int, ch as int) == i + byte_offset_at(
                b@.skip(i as int),
                position.line - row,
                ch as int,
            ),
        decreases len - i,
    {
        let ghost rest = b@.skip(i as int);
        let mut j = i;
        assert(rest.skip(0) =~= rest);
        while j < len && b[j] != 10u8
            invariant
                b@ == text.spec_bytes(),
                len == b@.len(),
                i <= j <= len,
                rest == b@.skip(i as int),
                first_nl_byte(rest) == (j - i) + first_nl_byte(b@.skip(j as int)),
            decreases len - j,
        {
            assert(b@.skip(j as int).drop_first() =~= b@.skip(j + 1));
            j += 1;
        }
        let seg = if j < len {
            j + 1 - i
        } else {
            len - i
        };
        proof {
            lemma_first_nl_byte(rest);
        }
        assert(seg == segment_len(rest));
        if row == position.line {
            return if ch < seg {
                i + ch
            } else {
                i + seg
            };
        }
        assert(rest.skip(seg as int) =~= b@.skip(i + seg));
        i = i + seg;
        row = row + 1;
    }
    assert(b@.skip(i as int).len() == 0);
    i + ch
}

/// The characters whose encoding is the first `col` bytes of that of `l`.
pub open spec fn byte_prefix(l: Seq<char>, col: int) -> Seq<char> {
    decode_utf8(encode_utf8(l).take(col))
}

/// `&s[..col]`, for a byte index `col` at a character boundary of `s`.
pub fn prefix_to(s: &str, col: usize) -> (r: &str)
    requires
        col <= s.spec_bytes().len(),
        is_char_boundary(s.spec_bytes(), col as int),
    ensures
        r@ == byte_prefix(s@, col as int),
{
    let (a, _) = s.split_at(col);
    proof {
        vstd::utf8::encode_utf8_decode_utf8(a@);
        assert(a.spec_bytes() =~= s.spec_bytes().take(col as int));
    }
    a
}

} // verus!

verus! {

/// The number of bytes that encode `c` in UTF-8.
pub open spec fn utf8_width(c: char) -> int {
    let u = c as u32;
    if u < 0x80 {
        1
    } else if u < 0x800 {
        2
    } else if u < 0x10000 {
        3
    } else {
        4
    }
}

/// The number of characters of `s` whose encoding starts before byte `off`.
pub open spec fn chars_before(s: Seq<char>, off: int) -> int
    decreases s.len(),
{
    if s.len() == 0 || off <= 0 {
        0
    } else {
        1 + chars_before(s.drop_first(), off - utf8_width(s[0]))
    }
}

/// The number of line feeds in `s`.
pub open spec fn count_nl(s: Seq<char>) -> int
    decreases s.len(),
{
    if s.len() == 0 {
        0
    } else {
        count_nl(s.drop_last()) + if s.last() == '\n' {
            1int
        } else {
            0int
        }
    }
}

/// The position just after the text `p`: its number of line feeds, and the
/// UTF-16 length of what follows the last one.
pub open spec fn end_position(p: Seq<char>) -> Position {
    Position {
        line: count_nl(p) as u32,
        character: utf16_len(p.skip(after_last(p, '\n'))) as u32,
    }
}

/// The position of byte offset `off` of `text`, a character it falls inside
/// counted as before it.
pub open spec fn position_at(text: Seq<char>, off: int) -> Position {
    end_position(text.take(chars_before(text, off)))
}

/// The width of `c` in UTF-8.
pub fn utf8_width_of(c: char) -> (r: usize)
    ensures
        r == utf8_width(c),
{
    let u = c as u32;
    if u < 0x80 {
        1
    } else if u < 0x800 {
        2
    } else if u < 0x10000 {
        3
    } else {
        4
    }
}

/// The LSP position of a byte offset into `text`.
pub fn offset_to_position(text: &str, offset: usize) -> (r: Position)
    requires
        2 * text@.len() <= u32::MAX,
    ensures
        r == position_at(text@, offset as int),
{
    let cs = chars_of(text);
    let n = cs.len();
    let mut k: usize = 0;
    let mut consumed: usize = 0;
    assert(text@.skip(0) =~= text@);
    while k < n && consumed < offset
        invariant
            cs@ == text@,
            n == cs.len(),
            k <= n,
            consumed <= offset,
            chars_before(text@, offset as int) == k + chars_before(
                text@.skip(k as int),
                offset - consumed,
            ),
        decreases n - k,
    {
        let w = utf8_width_of(cs[k]);
        assert(text@.skip(k as int)[0] == cs@[k as int]);
        assert(text@.skip(k as int).drop_first() =~= text@.skip(k + 1));
        assert(chars_before(text@.skip(k as int), offset - consumed) == 1 + chars_before(
            text@.skip(k + 1),
            offset - consumed - w,
        ));
        if offset - consumed <= w {
            assert(chars_before(text@.skip(k + 1), offset - consumed - w) == 0);
            assert(chars_before(text@.skip(k + 1), 0) == 0);
            k += 1;
            consumed = offset;
        } else {
            consumed = consumed + w;
            k += 1;
        }
    }
    if k == n {
        assert(text@.skip(k as int).len() == 0);
    }
    let mut line: usize = 0;
    let mut i: usize = 0;
    while i < k
        invariant
            cs@ == text@,
            k <= cs.len(),
            i <= k,
            line == count_nl(text@.take(i as int)),
            line <= i,
        decreases k - i,
    {
        assert(text@.take(i + 1).drop_last() =~= text@.take(i as int));
        if cs[i] == '\n' {
            line += 1;
        }
        i += 1;
    }
    assert(text@.take(k as int) =~= cs@.take(k as int));
    let j = crate::text::after_last_in(&cs, k, '\n');
    let mut col: usize = 0;
    let mut m: usize = j;
    while m < k
        invariant
            cs@ == text@,
            j <= m <= k <= cs.len(),
            2 * text@.len() <= u32::MAX,
            col == utf16_len(text@.subrange(j as int, m as int)),
            col <= 2 * (m - j),
        decreases k - m,
    {
        assert(text@.subrange(j as int, m + 1).drop_last() =~= text@.subrange(j as int, m as int));
        if (cs[m] as u32) >= 0x10000 {
            col += 2;
        } else {
            col += 1;
        }
        m += 1;
    }
    assert(text@.take(k as int).skip(j as int) =~= text@.subrange(j as int, k as int));
    Position { line: line as u32, character: col as u32 }
}

/// The LSP range of the bytes `start..end` of `text`.
pub fn text_range_to_lsp_range(text: &str, start: usize, end: usize) -> (r: Range)
    requires
        2 * text@.len() <= u32::MAX,
    ensures
        r.start == position_at(text@, start as int),
        r.end == position_at(text@, end as int),
{
    Range { start: offset_to_position(text, start), end: offset_to_position(text, end) }
}

} // verus!

verus! {

/// A range of byte offsets into a text.
#[derive(Clone, Copy, Debug, PartialEq, Eq, Structural)]
pub struct TextRange {
    pub start: usize,
    pub end: usize,
}

} // verus!

verus! {

/// The index of the first character of line `n` of `s`, if `s` has that
/// many lines (a line starts at 0 and after every line feed).
pub open spec fn line_start(s: Seq<char>, n: nat) -> Option<int>
    decreases s.len(), n,
{
    if n == 0 {
        Some(0)
    } else {
        proof {
            lemma_first_nl(s);
        }
        if first_nl(s) < s.len() {
            match line_start(s.skip(first_nl(s) + 1), (n - 1) as nat) {
                Some(k) => Some(k + first_nl(s) + 1),
                None => None,
            }
        } else {
            None
        }
    }
}

/// The number of characters of `rest` that column `col` (in UTF-16 units)
/// covers: characters are taken while the column is not reached and the
/// line has not ended; a column past the end of the line stops there.
pub open spec fn column_chars(rest: Seq<char>, col: int) -> int
    decreases rest.len(),
{
    if col <= 0 || rest.len() == 0 || rest[0] == '\n' {
        0
    } else {
        1 + column_chars(rest.drop_first(), col - (if (rest[0] as u32) >= 0x10000 { 2int } else { 1int }))
    }
}

/// The character index of an LSP position in `s`: none when its line does
/// not exist.
pub open spec fn position_index(s: Seq<char>, p: Position) -> Option<int> {
    match line_start(s, p.line as nat) {
        Some(k) => Some(k + column_chars(s.skip(k), p.character as int)),
        None => None,
    }
}

pub proof fn lemma_line_start(s: Seq<char>, n: nat)
    ensures
        line_start(s, n) matches Some(k) ==> 0 <= k <= s.len(),
    decreases s.len(), n,
{
    if n > 0 {
        lemma_first_nl(s);
        if first_nl(s) < s.len() {
            lemma_line_start(s.skip(first_nl(s) + 1), (n - 1) as nat);
        }
    }
}

pub proof fn lemma_column_chars(rest: Seq<char>, col: int)
    ensures
        0 <= column_chars(rest, col) <= rest.len(),
    decreases rest.len(),
{
    if !(col <= 0 || rest.len() == 0 || rest[0] == '\n') {
        lemma_column_chars(rest.drop_first(), col - (if (rest[0] as u32) >= 0x10000 { 2int } else { 1int }));
    }
}

/// The character index in `cs` of an LSP position.
pub fn position_to_index(cs: &Vec<char>, p: Position) -> (r: Option<usize>)
    ensures
        match r {
            Some(k) => position_index(cs@, p) == Some(k as int),
            None => position_index(cs@, p).is_none(),
        },
{
    let n = cs.len();
    let mut start: usize = 0;
    let mut line: u32 = 0;
    assert(cs@.skip(0) =~= cs@);
    while line < p.line
        invariant
            start <= n == cs.len(),
            line <= p.line,
            match line_start(cs@, p.line as nat) {
                Some(k) => match line_start(cs@.skip(start as int), (p.line - line) as nat) {
                    Some(j) => k == start + j,
                    None => false,
                },
                None => line_start(cs@.skip(start as int), (p.line - line) as nat).is_none(),
            },
        decreases p.line - line,
    {
        let ghost t = cs@.skip(start as int);
        let k = find_nl(cs, start);
        proof {
            lemma_first_nl(t);
        }
        if k == n {
            assert(line_start(t, (p.line - line) as nat).is_none());
            return None;
        }
        assert(t.skip(first_nl(t) + 1) =~= cs@.skip(k + 1));
        start = k + 1;
        line = line + 1;
    }
    let ghost rest = cs@.skip(start as int);
    assert(line_start(rest, 0) == Some(0int));
    let mut i = start;
    let mut col: u32 = p.character;
    assert(rest.skip(0) =~= rest);
    while i < n && col > 0 && cs[i] != '\n'
        invariant
            start <= i <= n == cs.len(),
            rest == cs@.skip(start as int),
            column_chars(rest, p.character as int) == (i - start) + column_chars(cs@.skip(i as int), col as int),
        decreases n - i,
    {
        assert(cs@.skip(i as int)[0] == cs@[i as int]);
        assert(cs@.skip(i as int).drop_first() =~= cs@.skip(i + 1));
        let w: u32 = if (cs[i] as u32) >= 0x10000 {
            2
        } else {
            1
        };
        if col >= w {
            col = col - w;
        } else {
            proof {
                assert(column_chars(cs@.skip(i + 1), col - w) == 0);
            }
            col = 0;
        }
        i += 1;
    }
    if i < n && cs[i] == '\n' {
        assert(cs@.skip(i as int)[0] == '\n');
    }
    if i == n {
        assert(cs@.skip(i as int).len() == 0);
    }
    assert(position_index(cs@, p) == Some(start + column_chars(rest, p.character as int)));
    Some(i)
}

} // verus!
