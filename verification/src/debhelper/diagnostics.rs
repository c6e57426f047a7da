//! Duplicate entries in line-oriented debhelper files.
//!
//! A file is read line by line (`str::lines`). A line whose first
//! non-whitespace character is `#` is a comment; the other lines are split
//! into whitespace-separated words, and the words become entries according to
//! the file's [`LineShape`]. Every entry has a key: its words passed through a
//! caller-supplied normalisation. An entry whose key was already seen earlier
//! in the file is a duplicate.

use vstd::prelude::*;
use crate::debhelper::detection::{is_debhelper_file, is_debhelper_uri};
use crate::lsp::{
    CodeModel, Diagnostic, DiagnosticModel, DiagnosticSeverity, NumberOrString, Position, Range,
    diagnostics_view, opt_view,
};
use crate::text::{
    chars_of, concat, lead_ws, lead_ws_from, lemma_lead_ws, lemma_lines_bounds, lemma_nth_line_len, lemma_utf16_len,
    line_at, lines,
    lines_of, nth_line, split_words, str_eq, trim_start, utf16_len, utf16_len_of, views, words,
};

verus! {

/// How a file's lines map to the entries it declares.
#[derive(Clone, Copy, Debug, PartialEq, Eq, Structural)]
pub enum LineShape {
    /// Every word on a line stands on its own, as in dirs or manpages.
    Words,
    /// The last word of a multi-word line is the destination, as in install.
    WordsWithDestination,
}

/// An entry as plain values: its word and the destination, if any.
pub type EntryModel = (Seq<char>, Option<Seq<char>>);

/// The view of an optional string slice.
pub open spec fn opt_str_view(o: Option<&str>) -> Option<Seq<char>> {
    match o {
        Some(s) => Some(s@),
        None => None,
    }
}

/// The model of an entry taken from a line.
pub open spec fn entry_view(e: (&str, Option<&str>)) -> EntryModel {
    (e.0@, opt_str_view(e.1))
}

/// The models of a list of entries.
pub open spec fn entries_view(v: Seq<(&str, Option<&str>)>) -> Seq<EntryModel> {
    v.map_values(|e: (&str, Option<&str>)| entry_view(e))
}

/// The entries declared by the words of a line.
pub open spec fn shape_entries(ws: Seq<Seq<char>>, shape: LineShape) -> Seq<EntryModel> {
    if shape == LineShape::WordsWithDestination && ws.len() > 1 {
        ws.drop_last().map_values(|w: Seq<char>| (w, Some(ws.last())))
    } else {
        ws.map_values(|w: Seq<char>| (w, None::<Seq<char>>))
    }
}

/// A line whose first non-whitespace character is `#`.
pub open spec fn is_comment(l: Seq<char>) -> bool {
    trim_start(l).len() > 0 && trim_start(l)[0] == '#'
}

/// The entries a line of the file declares: none for a comment.
pub open spec fn line_entries(l: Seq<char>, shape: LineShape) -> Seq<EntryModel> {
    if is_comment(l) {
        seq![]
    } else {
        shape_entries(words(l), shape)
    }
}

/// The entries of all lines `ls`, in order, each with its line number.
pub open spec fn file_entries(ls: Seq<Seq<char>>, shape: LineShape) -> Seq<(int, EntryModel)>
    decreases ls.len(),
{
    if ls.len() == 0 {
        seq![]
    } else {
        let n = ls.len() - 1;
        file_entries(ls.drop_last(), shape) + line_entries(ls[n], shape).map_values(
            |e: EntryModel| (n, e),
        )
    }
}

/// `normalize` has mapped a string equal to `s` to a string equal to `k`.
pub open spec fn normalizes(normalize: impl Fn(&str) -> String, s: Seq<char>, k: Seq<char>) -> bool {
    exists|a: &str, out: String| #[trigger] call_ensures(normalize, (a,), out) && a@ == s && out@ == k
}

/// `k` is the key of entry `e`: its word and its destination, each passed
/// through `normalize`.
pub open spec fn key_of(normalize: impl Fn(&str) -> String, e: EntryModel, k: EntryModel) -> bool {
    &&& normalizes(normalize, e.0, k.0)
    &&& match (e.1, k.1) {
        (Some(d), Some(kd)) => normalizes(normalize, d, kd),
        (None, None) => true,
        _ => false,
    }
}

/// The text an issue names: the entry, its destination appended when there
/// is one.
pub open spec fn entry_text(e: EntryModel) -> Seq<char> {
    match e.1 {
        Some(d) => e.0 + " "@ + d,
        None => e.0,
    }
}

/// The range spanning line `n` of `text`, in UTF-16 columns.
pub open spec fn line_range_spec(text: Seq<char>, n: int) -> Range {
    Range {
        start: Position { line: n as u32, character: 0 },
        end: Position { line: n as u32, character: utf16_len(nth_line(text, n)) as u32 },
    }
}

/// An issue as plain values: the text it names and the range it covers.
pub type IssueModel = (Seq<char>, Range);

/// The issues raised by the entries `es` of `text` whose keys are `keys`:
/// one for every entry whose key equals the key of an earlier entry.
pub open spec fn duplicate_issues(
    es: Seq<(int, EntryModel)>,
    keys: Seq<EntryModel>,
    text: Seq<char>,
) -> Seq<IssueModel>
    decreases keys.len(),
{
    if keys.len() == 0 {
        seq![]
    } else {
        let n = keys.len() - 1;
        let prev = duplicate_issues(es, keys.drop_last(), text);
        if keys.drop_last().contains(keys[n]) {
            prev.push((entry_text(es[n].1), line_range_spec(text, es[n].0)))
        } else {
            prev
        }
    }
}

/// `issues` are the duplicates of `text` read with `shape`, for some keys
/// that `normalize` gave the entries.
pub open spec fn duplicates_found(
    normalize: impl Fn(&str) -> String,
    text: Seq<char>,
    shape: LineShape,
    issues: Seq<IssueModel>,
) -> bool {
    let es = file_entries(lines(text), shape);
    exists|keys: Seq<EntryModel>|
        {
            &&& keys.len() == es.len()
            &&& forall|i: int| 0 <= i < keys.len() ==> #[trigger] key_of(normalize, es[i].1, keys[i])
            &&& issues == duplicate_issues(es, keys, text)
        }
}

/// A diagnostic issue in a line-oriented debhelper file.
#[derive(Clone, Debug)]
pub enum DiagnosticIssue {
    /// An entry that repeats one already listed above it.
    DuplicateEntry {
        /// The entry text, the destination appended when there is one.
        path: String,
        /// Range of the offending line.
        range: Range,
    },
}

impl View for DiagnosticIssue {
    type V = IssueModel;

    open spec fn view(&self) -> IssueModel {
        match self {
            DiagnosticIssue::DuplicateEntry { path, range } => (path@, *range),
        }
    }
}

/// The models of a list of issues.
pub open spec fn issues_view(v: Seq<DiagnosticIssue>) -> Seq<IssueModel> {
    v.map_values(|i: DiagnosticIssue| i@)
}

/// The entries a line declares.
pub fn entries<'a>(words: &[&'a str], shape: LineShape) -> (r: Vec<(&'a str, Option<&'a str>)>)
    ensures
        entries_view(r@) == shape_entries(
            views(words@),
            shape,
        ),
{
    let n = words.len();
    let mut r: Vec<(&'a str, Option<&'a str>)> = Vec::new();
    let with_dest = match shape {
        LineShape::WordsWithDestination => n > 1,
        LineShape::Words => false,
    };
    let count = if with_dest {
        n - 1
    } else {
        n
    };
    let ghost want = shape_entries(views(words@), shape);
    let mut i: usize = 0;
    while i < count
        invariant
            count <= n == words@.len(),
            with_dest == (shape == LineShape::WordsWithDestination && n > 1),
            count == if with_dest { n - 1 } else { n as int },
            want == shape_entries(views(words@), shape),
            want.len() == count,
            i <= count,
            entries_view(r@) == want.take(i as int),
        decreases count - i,
    {
        let dest = if with_dest {
            Some(words[n - 1])
        } else {
            None
        };
        proof {
            let ws = views(words@);
            assert(ws[i as int] == words@[i as int]@);
            if with_dest {
                assert(ws.drop_last()[i as int] == ws[i as int]);
                assert(ws.last() == words@[n - 1]@);
            }
            assert(want[i as int] == entry_view((words@[i as int], dest)));
        }
        let ghost before = r@;
        r.push((words[i], dest));
        assert(r@ == before.push((words@[i as int], dest)));
        assert(entries_view(r@) =~= entries_view(before).push(want[i as int]));
        assert(want.take(i + 1) =~= want.take(i as int).push(want[i as int]));
        i += 1;
    }
    assert(want.take(count as int) =~= want);
    r
}

/// Whether a line is a comment: its first non-whitespace character is `#`.
pub fn is_comment_line(line: &str) -> (r: bool)
    ensures
        r == is_comment(line@),
{
    let cs = chars_of(line);
    let k = lead_ws_from(&cs, 0);
    assert(cs@.skip(0) =~= line@);
    proof {
        lemma_lead_ws(line@);
    }
    k < cs.len() && cs[k] == '#'
}

/// Build the LSP range spanning an entire line.
pub fn line_range(text: &str, line_num: usize) -> (r: Range)
    requires
        2 * text@.len() <= u32::MAX,
        line_num <= u32::MAX,
    ensures
        r == line_range_spec(text@, line_num as int),
{
    let line = line_at(text, line_num);
    proof {
        lemma_nth_line_len(text@, line_num as int);
        lemma_utf16_len(line@);
    }
    let w = utf16_len_of(line);
    let start = Position::new(line_num as u32, 0);
    let end = Position::new(line_num as u32, w as u32);
    Range::new(start, end)
}

} // verus!

verus! {

/// The model of an entry of the file, with its line number.
pub open spec fn flat_view(e: (usize, &str, Option<&str>)) -> (int, EntryModel) {
    (e.0 as int, (e.1@, opt_str_view(e.2)))
}

/// The models of a list of entries of the file.
pub open spec fn flats_view(v: Seq<(usize, &str, Option<&str>)>) -> Seq<(int, EntryModel)> {
    v.map_values(|e: (usize, &str, Option<&str>)| flat_view(e))
}

/// The models of a list of keys.
pub open spec fn keys_view(v: Seq<(String, Option<String>)>) -> Seq<EntryModel> {
    v.map_values(|k: (String, Option<String>)| (k.0@, opt_view(k.1)))
}

/// Every entry of `file_entries(ls, shape)` carries the number of one of
/// the lines `ls`.
pub proof fn lemma_file_entries_lines(ls: Seq<Seq<char>>, shape: LineShape)
    ensures
        forall|i: int|
            0 <= i < file_entries(ls, shape).len() ==> 0 <= (#[trigger] file_entries(ls, shape)[i]).0
                < ls.len(),
    decreases ls.len(),
{
    if ls.len() > 0 {
        lemma_file_entries_lines(ls.drop_last(), shape);
        let prev = file_entries(ls.drop_last(), shape);
        assert forall|i: int| 0 <= i < file_entries(ls, shape).len() implies 0 <= (
        #[trigger] file_entries(ls, shape)[i]).0 < ls.len() by {
            if i < prev.len() {
                assert(file_entries(ls, shape)[i] == prev[i]);
            }
        }
    }
}

/// The entries of all `lines`, each with its line number.
fn collect_entries<'a>(ls: &Vec<&'a str>, shape: LineShape) -> (r: Vec<(usize, &'a str, Option<&'a str>)>)
    ensures
        flats_view(r@) == file_entries(views(ls@), shape),
{
    let mut r: Vec<(usize, &'a str, Option<&'a str>)> = Vec::new();
    let mut n: usize = 0;
    assert(views(ls@).take(0) =~= Seq::<Seq<char>>::empty());
    while n < ls.len()
        invariant
            n <= ls.len(),
            flats_view(r@) == file_entries(views(ls@).take(n as int), shape),
        decreases ls.len() - n,
    {
        let line = ls[n];
        let ghost prefix = flats_view(r@);
        let ghost le = line_entries(line@, shape);
        if !is_comment_line(line) {
            let ws = split_words(line);
            let es = entries(ws.as_slice(), shape);
            assert(entries_view(es@) == le);
            let mut j: usize = 0;
            while j < es.len()
                invariant
                    j <= es.len(),
                    entries_view(es@) == le,
                    flats_view(r@) == prefix + le.take(j as int).map_values(
                        |e: EntryModel| (n as int, e),
                    ),
                decreases es.len() - j,
            {
                let (p, d) = es[j];
                let ghost before = r@;
                r.push((n, p, d));
                assert(le[j as int] == entry_view(es@[j as int]));
                assert(flats_view(r@) =~= flats_view(before).push((n as int, le[j as int])));
                assert(le.take(j + 1) =~= le.take(j as int).push(le[j as int]));
                assert(le.take(j + 1).map_values(|e: EntryModel| (n as int, e)) =~= le.take(
                    j as int,
                ).map_values(|e: EntryModel| (n as int, e)).push((n as int, le[j as int])));
                j += 1;
            }
            assert(le.take(es.len() as int) =~= le);
        } else {
            assert(le =~= Seq::<EntryModel>::empty());
            assert(flats_view(r@) =~= prefix + le.map_values(|e: EntryModel| (n as int, e)));
        }
        proof {
            let pre = views(ls@).take(n + 1);
            assert(pre.drop_last() =~= views(ls@).take(n as int));
            assert(pre[n as int] == line@);
            assert(pre.len() - 1 == n);
            assert(le.map_values(|e: EntryModel| (n as int, e)) =~= line_entries(pre[pre.len() - 1], shape).map_values(
                |e: EntryModel| (pre.len() - 1, e),
            ));
        }
        n += 1;
    }
    assert(views(ls@).take(ls.len() as int) =~= views(ls@));
    r
}

} // verus!

verus! {

/// Whether `(kp, kd)` is among the keys `seen`.
fn contains_key(seen: &Vec<(String, Option<String>)>, kp: &String, kd: &Option<String>) -> (r: bool)
    ensures
        r == keys_view(seen@).contains((kp@, opt_view(*kd))),
{
    let ghost k = (kp@, opt_view(*kd));
    let mut i: usize = 0;
    while i < seen.len()
        invariant
            i <= seen.len(),
            k == (kp@, opt_view(*kd)),
            forall|j: int| 0 <= j < i ==> keys_view(seen@)[j] != k,
        decreases seen.len() - i,
    {
        let (sp, sd) = &seen[i];
        let same_dest = match (sd, kd) {
            (Some(a), Some(b)) => str_eq(a.as_str(), b.as_str()),
            (None, None) => true,
            _ => false,
        };
        if same_dest && str_eq(sp.as_str(), kp.as_str()) {
            assert(keys_view(seen@)[i as int] == k);
            return true;
        }
        i += 1;
    }
    assert(!keys_view(seen@).contains(k));
    false
}

/// The text naming an entry, its destination appended when there is one.
fn describe_entry(path: &str, destination: Option<&str>) -> (r: String)
    ensures
        r@ == entry_text((path@, opt_str_view(destination))),
{
    match destination {
        Some(d) => {
            let mut t = concat(path, " ");
            t.append(d);
            t
        },
        None => String::from_str(path),
    }
}

/// Find entries that repeat an earlier one.
pub fn find_duplicate_entries(
    text: &str,
    shape: LineShape,
    normalize: impl Fn(&str) -> String,
) -> (r: Vec<DiagnosticIssue>)
    requires
        2 * text@.len() <= u32::MAX,
        forall|s: &str| #[trigger] normalize.requires((s,)),
    ensures
        duplicates_found(normalize, text@, shape, issues_view(r@)),
{
    let ls = lines_of(text);
    let es = collect_entries(&ls, shape);
    let ghost ges = file_entries(lines(text@), shape);
    proof {
        lemma_lines_bounds(text@);
        lemma_file_entries_lines(lines(text@), shape);
    }
    let mut issues: Vec<DiagnosticIssue> = Vec::new();
    let mut seen: Vec<(String, Option<String>)> = Vec::new();
    let ghost mut keys: Seq<EntryModel> = seq![];
    let mut i: usize = 0;
    while i < es.len()
        invariant
            flats_view(es@) == ges,
            ges == file_entries(lines(text@), shape),
            forall|j: int| 0 <= j < ges.len() ==> 0 <= (#[trigger] ges[j]).0 < lines(text@).len(),
            lines(text@).len() <= text@.len(),
            2 * text@.len() <= u32::MAX,
            forall|s: &str| #[trigger] normalize.requires((s,)),
            i <= es.len(),
            keys.len() == i,
            forall|j: int| 0 <= j < i ==> #[trigger] key_of(normalize, ges[j].1, keys[j]),
            keys_view(seen@) == keys,
            issues_view(issues@) == duplicate_issues(ges, keys, text@),
        decreases es.len() - i,
    {
        let (line_num, path, dest) = es[i];
        assert(ges[i as int] == flat_view(es@[i as int]));
        let kp = normalize(path);
        let kd = match dest {
            Some(d) => Some(normalize(d)),
            None => None,
        };
        let ghost k = (kp@, opt_view(kd));
        assert(key_of(normalize, ges[i as int].1, k));
        let dup = contains_key(&seen, &kp, &kd);
        let ghost before = issues@;
        if dup {
            let described = describe_entry(path, dest);
            let range = line_range(text, line_num);
            issues.push(DiagnosticIssue::DuplicateEntry { path: described, range });
            assert(issues_view(issues@) =~= issues_view(before).push(
                (entry_text(ges[i as int].1), line_range_spec(text@, ges[i as int].0)),
            ));
        }
        let ghost seen_before = seen@;
        seen.push((kp, kd));
        assert(keys_view(seen@) =~= keys_view(seen_before).push(k));
        proof {
            let old_keys = keys;
            keys = keys.push(k);
            assert(keys.drop_last() =~= old_keys);
            assert forall|j: int| 0 <= j < i + 1 implies #[trigger] key_of(
                normalize,
                ges[j].1,
                keys[j],
            ) by {
                if j < i {
                    assert(keys[j] == old_keys[j]);
                }
            }
        }
        i += 1;
    }
    assert(issues_view(issues@) == duplicate_issues(ges, keys, text@));
    issues
}

} // verus!

verus! {

/// The diagnostic that reports an issue.
pub open spec fn diagnostic_of(issue: IssueModel) -> DiagnosticModel {
    (
        issue.1,
        Some(DiagnosticSeverity::Warning),
        Some(CodeModel::Text("duplicate-entry"@)),
        Some("debian-lsp"@),
        "Duplicate entry '"@ + issue.0 + "'"@,
    )
}

/// Turn an issue into an LSP diagnostic.
pub fn issue_to_diagnostic(issue: DiagnosticIssue) -> (r: Diagnostic)
    ensures
        r@ == diagnostic_of(issue@),
{
    match issue {
        DiagnosticIssue::DuplicateEntry { path, range } => {
            let mut message = concat("Duplicate entry '", path.as_str());
            message.append("'");
            Diagnostic {
                range,
                severity: Some(DiagnosticSeverity::Warning),
                code: Some(NumberOrString::String(String::from_str("duplicate-entry"))),
                source: Some(String::from_str("debian-lsp")),
                message,
            }
        },
    }
}

/// All LSP diagnostics for a line-oriented debhelper file, keyed by
/// `normalize`: with a deterministic `normalize`, exactly the issues of
/// [`find_duplicate_entries`] passed through [`issue_to_diagnostic`].
pub fn get_diagnostics(
    text: &str,
    shape: LineShape,
    normalize: impl Fn(&str) -> String,
) -> (r: Vec<Diagnostic>)
    requires
        2 * text@.len() <= u32::MAX,
        forall|s: &str| #[trigger] normalize.requires((s,)),
    ensures
        exists|issues: Seq<IssueModel>|
            #![trigger duplicates_found(normalize, text@, shape, issues)]
            duplicates_found(normalize, text@, shape, issues) && diagnostics_view(r@)
                == issues.map_values(|i: IssueModel| diagnostic_of(i)),
        normalizes_deterministically(normalize) ==> forall|issues: Seq<IssueModel>|
            #[trigger] duplicates_found(normalize, text@, shape, issues) ==> diagnostics_view(r@)
                == issues.map_values(|i: IssueModel| diagnostic_of(i)),
{
    let mut issues = find_duplicate_entries(text, shape, normalize);
    let ghost found = issues_view(issues@);
    let mut r: Vec<Diagnostic> = Vec::new();
    assert(found.skip(0) =~= found);
    while issues.len() > 0
        invariant
            r.len() + issues.len() == found.len(),
            issues_view(issues@) == found.skip(r.len() as int),
            diagnostics_view(r@) == found.take(r.len() as int).map_values(
                |m: IssueModel| diagnostic_of(m),
            ),
        decreases issues.len(),
    {
        let ghost k = r.len() as int;
        let ghost rest = issues@;
        let issue = issues.remove(0);
        assert(issues_view(rest)[0] == rest[0]@);
        assert(found.skip(k)[0] == found[k]);
        assert(issue@ == found[k]);
        assert(issues_view(issues@) =~= issues_view(rest).skip(1));
        assert(found.skip(k).skip(1) =~= found.skip(k + 1));
        let d = issue_to_diagnostic(issue);
        let ghost before = r@;
        r.push(d);
        assert(diagnostics_view(r@) =~= diagnostics_view(before).push(diagnostic_of(found[k])));
        assert(found.take(k + 1) =~= found.take(k).push(found[k]));
        assert(found.take(k + 1).map_values(|m: IssueModel| diagnostic_of(m)) =~= found.take(
            k,
        ).map_values(|m: IssueModel| diagnostic_of(m)).push(diagnostic_of(found[k])));
    }
    assert(found.take(found.len() as int) =~= found);
    assert forall|issues: Seq<IssueModel>|
        normalizes_deterministically(normalize) && #[trigger] duplicates_found(normalize, text@, shape, issues)
        implies diagnostics_view(r@) == issues.map_values(|i: IssueModel| diagnostic_of(i)) by {
        lemma_duplicates_unique(normalize, text@, shape, found, issues);
    }
    r
}

} // verus!

verus! {

/// Every entry whose key was seen before it is reported once, and no other:
/// there are as many issues as entries less the number of distinct keys.
pub proof fn lemma_duplicate_count(
    es: Seq<(int, EntryModel)>,
    keys: Seq<EntryModel>,
    text: Seq<char>,
)
    ensures
        duplicate_issues(es, keys, text).len() == keys.len() - keys.to_set().len(),
    decreases keys.len(),
{
    broadcast use {vstd::set::group_set_axioms, vstd::seq_lib::seq_to_set_is_finite};

    if keys.len() > 0 {
        let init = keys.drop_last();
        lemma_duplicate_count(es, init, text);
        assert forall|a: EntryModel| keys.contains(a) <==> (init.contains(a) || a == keys.last()) by {
            if keys.contains(a) {
                let j = choose|j: int| 0 <= j < keys.len() && keys[j] == a;
                if j < keys.len() - 1 {
                    assert(init[j] == a);
                }
            }
            if init.contains(a) {
                let j = choose|j: int| 0 <= j < init.len() && init[j] == a;
                assert(keys[j] == a);
            }
            if a == keys.last() {
                assert(keys[keys.len() - 1] == a);
            }
        }
        assert(init.to_set().insert(keys.last()) =~= keys.to_set());
        assert(init.to_set().finite());
        init.lemma_cardinality_of_set();
        if init.contains(keys.last()) {
            assert(init.to_set().contains(keys.last()));
            assert(keys.to_set() =~= init.to_set());
        } else {
            assert(!init.to_set().contains(keys.last()));
            assert(keys.to_set().len() == init.to_set().len() + 1);
        }
    } else {
        keys.lemma_cardinality_of_set();
    }
}

/// A file raises no issue exactly when the keys of its entries are all
/// different.
pub proof fn lemma_clean_iff_distinct(
    es: Seq<(int, EntryModel)>,
    keys: Seq<EntryModel>,
    text: Seq<char>,
)
    ensures
        duplicate_issues(es, keys, text).len() == 0 <==> keys.no_duplicates(),
{
    lemma_duplicate_count(es, keys, text);
    keys.lemma_cardinality_of_set();
    if keys.no_duplicates() {
        keys.unique_seq_to_set();
    }
    if keys.to_set().len() == keys.len() {
        keys.lemma_no_dup_set_cardinality();
    }
}

} // verus!

verus! {

/// The shape of the lines of the debhelper files that [`LineShape`] names:
/// `install` lists sources and then a destination; `dirs` and `manpages`
/// list words that stand on their own.
pub open spec fn line_shape_spec(uri: Seq<char>) -> Option<LineShape> {
    if is_debhelper_uri(uri, "install"@) {
        Some(LineShape::WordsWithDestination)
    } else if is_debhelper_uri(uri, "dirs"@) || is_debhelper_uri(uri, "manpages"@) {
        Some(LineShape::Words)
    } else {
        None
    }
}

/// The shape of the lines of the debhelper file at `uri`, when it is one of
/// the files [`LineShape`] names.
pub fn line_shape_for(uri: &str) -> (r: Option<LineShape>)
    ensures
        r == line_shape_spec(uri@),
{
    if is_debhelper_file(uri, "install") {
        Some(LineShape::WordsWithDestination)
    } else if is_debhelper_file(uri, "dirs") || is_debhelper_file(uri, "manpages") {
        Some(LineShape::Words)
    } else {
        None
    }
}

/// `normalize` gives equal keys for equal strings.
pub open spec fn normalizes_deterministically(normalize: impl Fn(&str) -> String) -> bool {
    forall|a1: &str, o1: String, a2: &str, o2: String|
        #![trigger call_ensures(normalize, (a1,), o1), call_ensures(normalize, (a2,), o2)]
        call_ensures(normalize, (a1,), o1) && call_ensures(normalize, (a2,), o2) && a1@ == a2@ ==> o1@ == o2@
}

/// With a deterministic normaliser, a string has one key.
proof fn lemma_normalizes_unique(normalize: impl Fn(&str) -> String, s: Seq<char>, k1: Seq<char>, k2: Seq<char>)
    requires
        normalizes_deterministically(normalize),
        normalizes(normalize, s, k1),
        normalizes(normalize, s, k2),
    ensures
        k1 == k2,
{
    let (a1, o1) = choose|a: &str, out: String| #[trigger] call_ensures(normalize, (a,), out) && a@ == s && out@ == k1;
    let (a2, o2) = choose|a: &str, out: String| #[trigger] call_ensures(normalize, (a,), out) && a@ == s && out@ == k2;
    assert(call_ensures(normalize, (a1,), o1) && call_ensures(normalize, (a2,), o2));
}

/// With a normaliser that gives equal keys for equal strings, a file has
/// one list of duplicates: two calls of [`find_duplicate_entries`] give
/// the same issues, and [`get_diagnostics`] gives exactly the issues of
/// [`find_duplicate_entries`] passed through [`issue_to_diagnostic`].
pub proof fn lemma_duplicates_unique(
    normalize: impl Fn(&str) -> String,
    text: Seq<char>,
    shape: LineShape,
    a: Seq<IssueModel>,
    b: Seq<IssueModel>,
)
    requires
        normalizes_deterministically(normalize),
        duplicates_found(normalize, text, shape, a),
        duplicates_found(normalize, text, shape, b),
    ensures
        a == b,
        a.map_values(|i: IssueModel| diagnostic_of(i)) == b.map_values(|i: IssueModel| diagnostic_of(i)),
{
    let es = file_entries(lines(text), shape);
    let ka = choose|keys: Seq<EntryModel>|
        {
            &&& keys.len() == es.len()
            &&& forall|i: int| 0 <= i < keys.len() ==> #[trigger] key_of(normalize, es[i].1, keys[i])
            &&& a == duplicate_issues(es, keys, text)
        };
    let kb = choose|keys: Seq<EntryModel>|
        {
            &&& keys.len() == es.len()
            &&& forall|i: int| 0 <= i < keys.len() ==> #[trigger] key_of(normalize, es[i].1, keys[i])
            &&& b == duplicate_issues(es, keys, text)
        };
    assert forall|i: int| 0 <= i < ka.len() implies ka[i] == kb[i] by {
        assert(key_of(normalize, es[i].1, ka[i]));
        assert(key_of(normalize, es[i].1, kb[i]));
        lemma_normalizes_unique(normalize, es[i].1.0, ka[i].0, kb[i].0);
        match (es[i].1.1, ka[i].1, kb[i].1) {
            (Some(d), Some(x), Some(y)) => {
                lemma_normalizes_unique(normalize, d, x, y);
            },
            _ => {},
        }
    }
    assert(ka =~= kb);
}

} // verus!
