//! The entries of a quilt series file, read with `patchkit`.

use vstd::prelude::*;
use crate::order::names;
use crate::text::{lines, trim, words};

verus! {

/// One line of a series file.
pub enum SeriesEntry {
    /// A patch, with the options written after its name.
    Patch { name: String, options: Vec<String> },
    /// A comment line, trimmed.
    Comment(String),
}

/// A quilt series file: its patch and comment lines, in order.
pub struct Series {
    pub entries: Vec<SeriesEntry>,
}

/// A series line as plain values.
pub enum SeriesLine {
    Patch(Seq<char>, Seq<Seq<char>>),
    Comment(Seq<char>),
}

impl View for SeriesEntry {
    type V = SeriesLine;

    open spec fn view(&self) -> SeriesLine {
        match self {
            SeriesEntry::Patch { name, options } => SeriesLine::Patch(name@, names(options@)),
            SeriesEntry::Comment(c) => SeriesLine::Comment(c@),
        }
    }
}

impl View for Series {
    type V = Seq<SeriesLine>;

    open spec fn view(&self) -> Seq<SeriesLine> {
        self.entries@.map_values(|e: SeriesEntry| e@)
    }
}

/// What a line of a series file holds: nothing when it is blank, a comment
/// when it starts with `#` once trimmed, else a patch name and its options.
pub open spec fn series_line(l: Seq<char>) -> Option<SeriesLine> {
    let t = trim(l);
    if t.len() == 0 {
        None
    } else if t[0] == '#' {
        Some(SeriesLine::Comment(t))
    } else {
        Some(SeriesLine::Patch(words(t)[0], words(t).drop_first()))
    }
}

/// The entries of the lines `ls`, blank lines skipped.
pub open spec fn series_lines(ls: Seq<Seq<char>>) -> Seq<SeriesLine>
    decreases ls.len(),
{
    if ls.len() == 0 {
        seq![]
    } else {
        let rest = series_lines(ls.drop_last());
        match series_line(ls.last()) {
            Some(e) => rest.push(e),
            None => rest,
        }
    }
}

/// The names of the patches among `entries`, in order.
pub open spec fn patch_names(entries: Seq<SeriesLine>) -> Seq<Seq<char>>
    decreases entries.len(),
{
    if entries.len() == 0 {
        seq![]
    } else {
        let rest = patch_names(entries.drop_last());
        match entries.last() {
            SeriesLine::Patch(name, _) => rest.push(name),
            SeriesLine::Comment(_) => rest,
        }
    }
}

/// `patchkit::quilt::Series::read` on the bytes of `text`, its entries
/// carried over one for one. As its source shows, the reader takes the
/// lines of the text, trims each, skips the empty ones, keeps a line that
/// starts with `#` as a comment, and splits any other at whitespace into a
/// patch name and its options; on UTF-8 text read from memory it does not
/// fail (a failure would give the empty series, as `unwrap_or_default`
/// does in the caller it stands for).
#[verifier::external_body]
fn read_series(text: &str) -> (r: Series)
    ensures
        r@ == series_lines(lines(text@)),
{
    let parsed = patchkit::quilt::Series::read(text.as_bytes()).unwrap_or_default();
    let entries = parsed.entries.into_iter().map(|e| match e {
        patchkit::quilt::SeriesEntry::Patch { name, options } => SeriesEntry::Patch { name, options },
        patchkit::quilt::SeriesEntry::Comment(c) => SeriesEntry::Comment(c),
    }).collect();
    Series { entries }
}

/// Parse the text of a series file.
pub fn parse_patches_series(text: &str) -> (r: Series)
    ensures
        r@ == series_lines(lines(text@)),
{
    read_series(text)
}

/// The names of the patches a series lists, in order.
pub fn listed_patches(parsed: &Series) -> (r: Vec<String>)
    ensures
        names(r@) == patch_names(parsed@),
{
    let mut r: Vec<String> = Vec::new();
    let mut i: usize = 0;
    while i < parsed.entries.len()
        invariant
            i <= parsed.entries.len(),
            names(r@) == patch_names(parsed@.take(i as int)),
        decreases parsed.entries.len() - i,
    {
        let ghost pre = parsed@.take(i + 1);
        assert(pre.drop_last() =~= parsed@.take(i as int));
        assert(pre.last() == parsed.entries@[i as int]@);
        match &parsed.entries[i] {
            SeriesEntry::Patch { name, .. } => {
                let ghost before = r@;
                r.push(String::from_str(name.as_str()));
                assert(names(r@) =~= names(before).push(name@));
            },
            SeriesEntry::Comment(_) => {},
        }
        i += 1;
    }
    assert(parsed@.take(parsed.entries.len() as int) =~= parsed@);
    r
}

} // verus!
