//! Applying the content changes of a `didChange` notification to the text
//! of a document.

use vstd::prelude::*;
use crate::lsp::Range;
use crate::position::{lemma_column_chars, lemma_line_start, position_index, position_to_index};
use crate::text::chars_of;

verus! {

/// One content change: the text that replaces `range`, or the whole
/// document when there is no range.
pub struct ContentChange {
    pub range: Option<Range>,
    pub text: String,
}

/// A content change as plain values.
pub type ChangeModel = (Option<Range>, Seq<char>);

impl View for ContentChange {
    type V = ChangeModel;

    open spec fn view(&self) -> ChangeModel {
        (self.range, self.text@)
    }
}

/// The models of a list of content changes.
pub open spec fn changes_view(v: Seq<ContentChange>) -> Seq<ChangeModel> {
    v.map_values(|c: ContentChange| c@)
}

/// `s` after one change: the characters between the two ends of the range
/// replaced, or the whole text when there is no range. A range that names
/// a line the text does not have, or whose end comes before its start,
/// leaves the text as it is.
pub open spec fn apply_change(s: Seq<char>, c: ChangeModel) -> Seq<char> {
    match c.0 {
        Some(r) => match (position_index(s, r.start), position_index(s, r.end)) {
            (Some(a), Some(b)) => if a <= b {
                s.take(a) + c.1 + s.skip(b)
            } else {
                s
            },
            _ => s,
        },
        None => c.1,
    }
}

/// `s` after the changes `cs`, applied in order.
pub open spec fn apply_changes(s: Seq<char>, cs: Seq<ChangeModel>) -> Seq<char>
    decreases cs.len(),
{
    if cs.len() == 0 {
        s
    } else {
        apply_changes(apply_change(s, cs[0]), cs.drop_first())
    }
}

/// The position of a range's end in `s`, checked against the text.
proof fn lemma_position_index(s: Seq<char>, p: crate::lsp::Position)
    ensures
        position_index(s, p) matches Some(k) ==> 0 <= k <= s.len(),
{
    lemma_line_start(s, p.line as nat);
    if let Some(k) = crate::position::line_start(s, p.line as nat) {
        lemma_column_chars(s.skip(k), p.character as int);
    }
}

/// The text after one content change.
fn apply_one(text: String, change: &ContentChange) -> (r: String)
    ensures
        r@ == apply_change(text@, change@),
{
    match change.range {
        Some(range) => {
            let cs = chars_of(text.as_str());
            let a = position_to_index(&cs, range.start);
            let b = position_to_index(&cs, range.end);
            match (a, b) {
                (Some(a), Some(b)) => {
                    proof {
                        lemma_position_index(text@, range.start);
                        lemma_position_index(text@, range.end);
                    }
                    if a <= b {
                        let mut r = String::from_str(text.as_str().substring_char(0, a));
                        r.append(change.text.as_str());
                        r.append(text.as_str().substring_char(b, cs.len()));
                        assert(text@.subrange(b as int, cs.len() as int) =~= text@.skip(b as int));
                        r
                    } else {
                        text
                    }
                },
                _ => text,
            }
        },
        None => change.text.clone(),
    }
}

/// The text of a document after the content changes of one notification,
/// applied in order.
pub fn apply_content_changes(text: String, changes: &Vec<ContentChange>) -> (r: String)
    ensures
        r@ == apply_changes(text@, changes_view(changes@)),
{
    let ghost start = text@;
    let ghost cs = changes_view(changes@);
    let mut text = text;
    let mut i: usize = 0;
    assert(cs.skip(0) =~= cs);
    while i < changes.len()
        invariant
            i <= changes.len(),
            cs == changes_view(changes@),
            apply_changes(start, cs) == apply_changes(text@, cs.skip(i as int)),
        decreases changes.len() - i,
    {
        assert(cs.skip(i as int)[0] == changes@[i as int]@);
        assert(cs.skip(i as int).drop_first() =~= cs.skip(i + 1));
        text = apply_one(text, &changes[i]);
        i += 1;
    }
    assert(cs.skip(i as int).len() == 0);
    text
}

/// Changes sent in two notifications leave the text as the same changes
/// sent in one.
pub proof fn lemma_apply_changes_split(s: Seq<char>, a: Seq<ChangeModel>, b: Seq<ChangeModel>)
    ensures
        apply_changes(s, a + b) == apply_changes(apply_changes(s, a), b),
    decreases a.len(),
{
    if a.len() > 0 {
        assert((a + b).drop_first() =~= a.drop_first() + b);
        assert((a + b)[0] == a[0]);
        lemma_apply_changes_split(apply_change(s, a[0]), a.drop_first(), b);
    } else {
        assert(a + b =~= b);
    }
}

/// A change without a range replaces the whole text, whatever came before.
pub proof fn lemma_full_replacement(s: Seq<char>, a: Seq<ChangeModel>, t: Seq<char>)
    ensures
        apply_changes(s, a.push((None, t))) == t,
{
    lemma_apply_changes_split(s, a, seq![(None, t)]);
    assert(a + seq![(None::<Range>, t)] =~= a.push((None, t)));
    let mid = apply_changes(s, a);
    let last = seq![(None::<Range>, t)];
    assert(last.drop_first() =~= Seq::<ChangeModel>::empty());
    assert(apply_change(mid, last[0]) == t);
    assert(apply_changes(mid, last) == apply_changes(t, last.drop_first()));
}

} // verus!
