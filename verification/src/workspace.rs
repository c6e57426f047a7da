//! The open documents of the server, by URI, and the diagnostics and code
//! actions it derives from copyright and changelog files.

use vstd::prelude::*;
use crate::text::fits_text_size;
use vstd::utf8::encode_utf8;
use rowan::ast::AstNode;
use debian_copyright::lossless::Parse as CopyrightParse;
use crate::lsp::{CodeModel, Diagnostic, DiagnosticModel, DiagnosticSeverity, NumberOrString, opt_view};
use crate::patches_series::series::{Series, parse_patches_series, series_lines};
use crate::position::{TextRange, position_at, text_range_to_lsp_range};
use crate::templates::fields::{FieldInfo, first_ci_match, names_of, standard_field_name};
use crate::text::{chars_of, concat, lines, str_eq};

verus! {

/// A document of the workspace, named by its place among the documents.
#[derive(Clone, Copy, Debug, PartialEq, Eq, Structural)]
pub struct SourceFile {
    pub id: usize,
}

/// The open documents: each URI with its current text, every URI once.
pub struct Workspace {
    files: Vec<(String, String)>,
}

/// The position of `uri` among `files`, if it is there.
pub open spec fn file_index(files: Seq<(Seq<char>, Seq<char>)>, uri: Seq<char>) -> Option<int>
    decreases files.len(),
{
    if files.len() == 0 {
        None
    } else if files.last().0 == uri {
        Some(files.len() - 1)
    } else {
        file_index(files.drop_last(), uri)
    }
}

/// No URI occurs twice.
pub open spec fn uris_unique(files: Seq<(Seq<char>, Seq<char>)>) -> bool {
    forall|i: int, j: int| 0 <= i < j < files.len() ==> (#[trigger] files[i]).0 != (#[trigger] files[j]).0
}

impl View for Workspace {
    type V = Seq<(Seq<char>, Seq<char>)>;

    closed spec fn view(&self) -> Seq<(Seq<char>, Seq<char>)> {
        self.files@.map_values(|f: (String, String)| (f.0@, f.1@))
    }
}

pub proof fn lemma_file_index(files: Seq<(Seq<char>, Seq<char>)>, uri: Seq<char>)
    ensures
        match file_index(files, uri) {
            Some(i) => 0 <= i < files.len() && files[i].0 == uri,
            None => forall|j: int| 0 <= j < files.len() ==> (#[trigger] files[j]).0 != uri,
        },
    decreases files.len(),
{
    if files.len() > 0 && files.last().0 != uri {
        lemma_file_index(files.drop_last(), uri);
        assert forall|j: int| 0 <= j < files.len() - 1 implies files.drop_last()[j] == files[j] by {}
    }
}

impl Workspace {
    /// The documents are well formed: every URI occurs once.
    pub closed spec fn wf(&self) -> bool {
        uris_unique(self@)
    }

    /// A workspace with no documents.
    pub fn new() -> (r: Workspace)
        ensures
            r.wf(),
            r@.len() == 0,
    {
        let r = Workspace { files: Vec::new() };
        assert(r@ =~= Seq::<(Seq<char>, Seq<char>)>::empty());
        r
    }

    /// Set the text of the document `url`, adding it if it is new, and
    /// return the document.
    pub fn update_file(&mut self, url: String, text: String) -> (r: SourceFile)
        requires
            old(self).wf(),
        ensures
            final(self).wf(),
            match file_index(old(self)@, url@) {
                Some(i) => r.id == i && final(self)@ == old(self)@.update(i, (url@, text@)),
                None => r.id == old(self)@.len() && final(self)@ == old(self)@.push((url@, text@)),
            },
    {
        let ghost before = self@;
        proof {
            lemma_file_index(before, url@);
        }
        let mut i: usize = 0;
        while i < self.files.len()
            invariant
                i <= self.files.len(),
                self@ == before,
                before == old(self)@,
                uris_unique(before),
                self@ == self.files@.map_values(|f: (String, String)| (f.0@, f.1@)),
                forall|j: int| 0 <= j < i ==> (#[trigger] before[j]).0 != url@,
            decreases self.files.len() - i,
        {
            if str_eq(self.files[i].0.as_str(), url.as_str()) {
                assert(before[i as int].0 == url@);
                assert(file_index(before, url@) == Some(i as int)) by {
                    lemma_unique_index(before, url@, i as int);
                }
                self.files.set(i, (url, text));
                assert(self@ =~= before.update(i as int, (url@, text@)));
                assert(uris_unique(self@)) by {
                    assert forall|a: int, b: int| 0 <= a < b < self@.len() implies (#[trigger] self@[a]).0
                        != (#[trigger] self@[b]).0 by {
                        assert(before[a].0 != before[b].0);
                    }
                }
                assert(before == old(self)@);
                assert(self@ == old(self)@.update(i as int, (url@, text@)));
                assert(file_index(old(self)@, url@) == Some(i as int));
                return SourceFile { id: i };
            }
            i += 1;
        }
        let id = self.files.len();
        self.files.push((url, text));
        assert(self@ =~= before.push((url@, text@)));
        assert(uris_unique(self@)) by {
            assert forall|a: int, b: int| 0 <= a < b < self@.len() implies (#[trigger] self@[a]).0
                != (#[trigger] self@[b]).0 by {
                if b < before.len() {
                    assert(before[a].0 != before[b].0);
                } else {
                    assert(before[a].0 != url@);
                }
            }
        }
        SourceFile { id }
    }

    /// The number of documents.
    pub fn len(&self) -> (r: usize)
        ensures
            r == self@.len(),
    {
        self.files.len()
    }

    /// The current text of a document.
    pub fn source_text(&self, file: SourceFile) -> (r: String)
        requires
            file.id < self@.len(),
        ensures
            r@ == self@[file.id as int].1,
    {
        self.files[file.id].1.clone()
    }

    /// The entries of the series file `file`.
    pub fn get_parsed_patches_series(&self, file: SourceFile) -> (r: Series)
        requires
            file.id < self@.len(),
        ensures
            r@ == series_lines(lines(self@[file.id as int].1)),
    {
        let text = self.source_text(file);
        parse_patches_series(text.as_str())
    }
}

/// In a list of distinct URIs, the one at `i` is found at `i`.
pub proof fn lemma_unique_index(files: Seq<(Seq<char>, Seq<char>)>, uri: Seq<char>, i: int)
    requires
        uris_unique(files),
        0 <= i < files.len(),
        files[i].0 == uri,
    ensures
        file_index(files, uri) == Some(i),
    decreases files.len(),
{
    if files.last().0 != uri {
        let init = files.drop_last();
        assert(init[i] == files[i]);
        assert(uris_unique(init)) by {
            assert forall|a: int, b: int| 0 <= a < b < init.len() implies (#[trigger] init[a]).0
                != (#[trigger] init[b]).0 by {
                assert(files[a].0 != files[b].0);
            }
        }
        lemma_unique_index(init, uri, i);
    } else if i != files.len() - 1 {
        assert(files[i].0 != files[files.len() - 1].0);
    }
}

/// Setting the text of a document keeps its place: the document that a
/// second update of the same URI returns is the one the first returned.
pub proof fn lemma_update_keeps_file(files: Seq<(Seq<char>, Seq<char>)>, uri: Seq<char>, text: Seq<char>)
    requires
        uris_unique(files),
    ensures
        ({
            let after = match file_index(files, uri) {
                Some(i) => files.update(i, (uri, text)),
                None => files.push((uri, text)),
            };
            let id = match file_index(files, uri) {
                Some(i) => i,
                None => files.len() as int,
            };
            file_index(after, uri) == Some(id) && after[id] == (uri, text)
        }),
{
    lemma_file_index(files, uri);
    match file_index(files, uri) {
        Some(i) => {
            let after = files.update(i, (uri, text));
            assert(uris_unique(after)) by {
                assert forall|a: int, b: int| 0 <= a < b < after.len() implies (#[trigger] after[a]).0
                    != (#[trigger] after[b]).0 by {
                    assert(files[a].0 != files[b].0);
                }
            }
            lemma_unique_index(after, uri, i);
        },
        None => {
            let after = files.push((uri, text));
            assert(after.drop_last() =~= files);
        },
    }
}

} // verus!

verus! {

/// What `debian_copyright` finds in a copyright file: the entries of its
/// header paragraph, then of its `Files` paragraphs, then of its license
/// paragraphs, each as its byte range, its field name if any, and the byte
/// range of that name if any.
pub uninterp spec fn copyright_entries_of(text: Seq<char>) -> Seq<((int, int), Option<Seq<char>>, Option<(int, int)>)>;

/// A copyright entry as plain values.
pub open spec fn centry_view(e: ((usize, usize), Option<String>, Option<(usize, usize)>)) -> ((int, int), Option<Seq<char>>, Option<(int, int)>) {
    (
        (e.0.0 as int, e.0.1 as int),
        opt_view(e.1),
        match e.2 {
            Some(k) => Some((k.0 as int, k.1 as int)),
            None => None,
        },
    )
}

/// `Parse::parse_relaxed(text).tree()` from `debian_copyright`, the entries
/// of `header()`, then of each of `iter_files()`, then of each of
/// `iter_licenses()`, each given as `Entry::text_range`, `Entry::key` and
/// `Entry::key_range`. The result is named, not described, except for one
/// fact the lossless syntax tree gives: an entry's range lies in the text.
/// Offsets are `rowan::TextSize` values, so the text must fit one.
#[verifier::external_body]
pub(crate) fn copyright_entries(text: &str) -> (r: Vec<((usize, usize), Option<String>, Option<(usize, usize)>)>)
    requires
        fits_text_size(text@),
    ensures
        r@.map_values(|e: ((usize, usize), Option<String>, Option<(usize, usize)>)| centry_view(e))
            == copyright_entries_of(text@),
        forall|i: int| 0 <= i < r.len() ==> (#[trigger] r@[i]).0.0 <= r@[i].0.1 <= encode_utf8(text@).len(),
{
    let c = CopyrightParse::parse_relaxed(text).tree();
    let mut ps = vec![];
    ps.extend(c.header().map(|h| h.as_deb822().clone()));
    ps.extend(c.iter_files().map(|f| f.as_deb822().clone()));
    ps.extend(c.iter_licenses().map(|l| l.as_deb822().clone()));
    let to = |r: rowan::TextRange| (r.start().into(), r.end().into());
    ps.iter().flat_map(|p| p.entries()).map(|e| (to(e.text_range()), e.key(), e.key_range().map(to))).collect()
}

/// A field name whose casing differs from the standard one.
pub struct FieldCasingIssue {
    pub field_name: String,
    pub standard_name: String,
    pub field_range: TextRange,
}

/// A casing issue as plain values.
pub type CasingModel = (Seq<char>, Seq<char>, (int, int));

impl View for FieldCasingIssue {
    type V = CasingModel;

    open spec fn view(&self) -> CasingModel {
        (self.field_name@, self.standard_name@, (self.field_range.start as int, self.field_range.end as int))
    }
}

/// The models of a list of casing issues.
pub open spec fn casing_view(v: Seq<FieldCasingIssue>) -> Seq<CasingModel> {
    v.map_values(|i: FieldCasingIssue| i@)
}

/// An entry spanning `start..end` lies outside the filter range, if any.
pub open spec fn entry_outside(start: int, end: int, range: Option<TextRange>) -> bool {
    match range {
        Some(f) => start >= f.end || end <= f.start,
        None => false,
    }
}

/// The casing issue an entry raises against the field table `names`: its
/// name is known up to ASCII case, written otherwise, and has a range.
pub open spec fn entry_casing_issue(
    e: ((int, int), Option<Seq<char>>, Option<(int, int)>),
    names: Seq<Seq<char>>,
) -> Option<CasingModel> {
    match e.1 {
        Some(key) => match first_ci_match(names, key) {
            Some(standard) => if key != standard {
                match e.2 {
                    Some(kr) => Some((key, standard, kr)),
                    None => None,
                }
            } else {
                None
            },
            None => None,
        },
        None => None,
    }
}

/// The casing issues of the entries `es` inside the filter range, in order.
pub open spec fn casing_issues(
    es: Seq<((int, int), Option<Seq<char>>, Option<(int, int)>)>,
    range: Option<TextRange>,
    names: Seq<Seq<char>>,
) -> Seq<CasingModel>
    decreases es.len(),
{
    if es.len() == 0 {
        seq![]
    } else {
        let prev = casing_issues(es.drop_last(), range, names);
        let e = es.last();
        if !entry_outside(e.0.0, e.0.1, range) && entry_casing_issue(e, names) is Some {
            prev.push(entry_casing_issue(e, names)->0)
        } else {
            prev
        }
    }
}

/// Find field casing issues in a copyright file, optionally within a
/// specific range, against the canonical field names `fields`.
pub fn copyright_field_casing_issues(
    text: &str,
    range: Option<TextRange>,
    fields: &Vec<FieldInfo>,
) -> (r: Vec<FieldCasingIssue>)
    requires
        fits_text_size(text@),
    ensures
        casing_view(r@) == casing_issues(copyright_entries_of(text@), range, names_of(fields@)),
        range is Some ==> is_subsequence(
            casing_view(r@),
            casing_issues(copyright_entries_of(text@), None, names_of(fields@)),
        ),
        range == Some(TextRange { start: 0, end: encode_utf8(text@).len() as usize })
            && no_empty_entry(copyright_entries_of(text@)) ==> casing_view(r@) == casing_issues(
            copyright_entries_of(text@),
            None,
            names_of(fields@),
        ),
{
    let entries = copyright_entries(text);
    let r = field_casing_issues(&entries, range, fields);
    proof {
        let es = copyright_entries_of(text@);
        let names = names_of(fields@);
        if let Some(f) = range {
            lemma_range_issues_subsequence(es, f, names);
        }
        if range == Some(TextRange { start: 0, end: encode_utf8(text@).len() as usize }) && no_empty_entry(es) {
            assert forall|i: int| 0 <= i < es.len() implies 0 <= (#[trigger] es[i]).0.0 < es[i].0.1
                <= encode_utf8(text@).len() by {
                assert(es[i] == centry_view(entries@[i]));
            }
            lemma_whole_range_keeps_all(es, encode_utf8(text@).len() as int, names);
        }
    }
    r
}

/// No entry of `es` spans an empty byte range.
pub open spec fn no_empty_entry(es: Seq<((int, int), Option<Seq<char>>, Option<(int, int)>)>) -> bool {
    forall|i: int| 0 <= i < es.len() ==> (#[trigger] es[i]).0.0 < es[i].0.1
}

/// The field casing issues of the deb822 entries `entries` (byte range,
/// field name, byte range of the name), optionally only of those that meet
/// `range`, against the canonical field names `fields`.
pub fn field_casing_issues(
    entries: &Vec<((usize, usize), Option<String>, Option<(usize, usize)>)>,
    range: Option<TextRange>,
    fields: &Vec<FieldInfo>,
) -> (r: Vec<FieldCasingIssue>)
    ensures
        casing_view(r@) == casing_issues(
            entries@.map_values(
                |e: ((usize, usize), Option<String>, Option<(usize, usize)>)| centry_view(e),
            ),
            range,
            names_of(fields@),
        ),
{
    let ghost es = entries@.map_values(
        |e: ((usize, usize), Option<String>, Option<(usize, usize)>)| centry_view(e),
    );
    let ghost names = names_of(fields@);
    let mut issues: Vec<FieldCasingIssue> = Vec::new();
    let mut i: usize = 0;
    while i < entries.len()
        invariant
            i <= entries.len(),
            es == entries@.map_values(
                |e: ((usize, usize), Option<String>, Option<(usize, usize)>)| centry_view(e),
            ),
            names == names_of(fields@),
            casing_view(issues@) == casing_issues(es.take(i as int), range, names),
        decreases entries.len() - i,
    {
        let ((start, end), key, key_range) = &entries[i];
        let ghost e = es[i as int];
        assert(e == centry_view(entries@[i as int]));
        assert(es.take(i + 1).drop_last() =~= es.take(i as int));
        assert(es.take(i + 1).last() == e);
        let outside = match range {
            Some(f) => *start >= f.end || *end <= f.start,
            None => false,
        };
        if !outside {
            if let Some(k) = key {
                if let Some(standard) = standard_field_name(fields, k.as_str()) {
                    if !str_eq(k.as_str(), standard) {
                        if let Some((ks, ke)) = key_range {
                            let ghost before = casing_view(issues@);
                            issues.push(
                                FieldCasingIssue {
                                    field_name: k.clone(),
                                    standard_name: String::from_str(standard),
                                    field_range: TextRange { start: *ks, end: *ke },
                                },
                            );
                            assert(casing_view(issues@) =~= before.push(
                                entry_casing_issue(e, names)->0,
                            ));
                        }
                    }
                }
            }
        }
        i += 1;
    }
    assert(es.take(entries.len() as int) =~= es);
    issues
}

/// The diagnostic that reports a casing issue of `text`.
pub open spec fn casing_diagnostic(text: Seq<char>, issue: CasingModel) -> DiagnosticModel {
    (
        crate::lsp::Range { start: position_at(text, issue.2.0), end: position_at(text, issue.2.1) },
        Some(DiagnosticSeverity::Warning),
        Some(CodeModel::Text("field-casing"@)),
        Some("debian-lsp"@),
        "Field name '"@ + issue.0 + "' should be '"@ + issue.1 + "'"@,
    )
}

/// The field-casing diagnostics of a copyright file.
pub fn copyright_diagnostics(text: &str, fields: &Vec<FieldInfo>) -> (r: Vec<Diagnostic>)
    requires
        fits_text_size(text@),
        2 * text@.len() <= u32::MAX,
    ensures
        crate::lsp::diagnostics_view(r@) == casing_issues(
            copyright_entries_of(text@),
            None,
            names_of(fields@),
        ).map_values(|i: CasingModel| casing_diagnostic(text@, i)),
{
    let issues = copyright_field_casing_issues(text, None, fields);
    let ghost found = casing_view(issues@);
    let mut r: Vec<Diagnostic> = Vec::new();
    let mut i: usize = 0;
    while i < issues.len()
        invariant
            i <= issues.len(),
            2 * text@.len() <= u32::MAX,
            found == casing_view(issues@),
            r.len() == i,
            crate::lsp::diagnostics_view(r@) == found.take(i as int).map_values(
                |m: CasingModel| casing_diagnostic(text@, m),
            ),
        decreases issues.len() - i,
    {
        let issue = &issues[i];
        let range = text_range_to_lsp_range(text, issue.field_range.start, issue.field_range.end);
        let mut message = concat("Field name '", issue.field_name.as_str());
        message.append("' should be '");
        message.append(issue.standard_name.as_str());
        message.append("'");
        let d = Diagnostic {
            range,
            severity: Some(DiagnosticSeverity::Warning),
            code: Some(NumberOrString::String(String::from_str("field-casing"))),
            source: Some(String::from_str("debian-lsp")),
            message,
        };
        assert(found[i as int] == issue@);
        assert(d@ == casing_diagnostic(text@, found[i as int]));
        let ghost before = r@;
        r.push(d);
        assert(crate::lsp::diagnostics_view(r@) =~= crate::lsp::diagnostics_view(before).push(
            casing_diagnostic(text@, found[i as int]),
        ));
        assert(found.take(i + 1).map_values(|m: CasingModel| casing_diagnostic(text@, m))
            =~= found.take(i as int).map_values(|m: CasingModel| casing_diagnostic(text@, m)).push(
            casing_diagnostic(text@, found[i as int]),
        ));
        i += 1;
    }
    assert(found.take(issues.len() as int) =~= found);
    r
}

impl Workspace {
    /// Find field casing issues in copyright files, optionally within a
    /// specific range: those of a range are among those of the whole file,
    /// in order, and the range of the whole text keeps them all.
    pub fn find_copyright_field_casing_issues(
        &self,
        file: SourceFile,
        range: Option<TextRange>,
        fields: &Vec<FieldInfo>,
    ) -> (r: Vec<FieldCasingIssue>)
        requires
            fits_text_size(self@[file.id as int].1),
            file.id < self@.len(),
        ensures
            casing_view(r@) == casing_issues(
                copyright_entries_of(self@[file.id as int].1),
                range,
                names_of(fields@),
            ),
            range is Some ==> is_subsequence(
                casing_view(r@),
                casing_issues(copyright_entries_of(self@[file.id as int].1), None, names_of(fields@)),
            ),
            range == Some(TextRange { start: 0, end: encode_utf8(self@[file.id as int].1).len() as usize })
                && no_empty_entry(copyright_entries_of(self@[file.id as int].1)) ==> casing_view(r@)
                == casing_issues(copyright_entries_of(self@[file.id as int].1), None, names_of(fields@)),
    {
        let text = self.source_text(file);
        copyright_field_casing_issues(text.as_str(), range, fields)
    }

    /// The field-casing diagnostics of the copyright file `file`.
    pub fn get_copyright_diagnostics(&self, file: SourceFile, fields: &Vec<FieldInfo>) -> (r: Vec<
        Diagnostic,
    >)
        requires
            fits_text_size(self@[file.id as int].1),
            file.id < self@.len(),
            2 * self@[file.id as int].1.len() <= u32::MAX,
        ensures
            crate::lsp::diagnostics_view(r@) == casing_issues(
                copyright_entries_of(self@[file.id as int].1),
                None,
                names_of(fields@),
            ).map_values(|i: CasingModel| casing_diagnostic(self@[file.id as int].1, i)),
    {
        let text = self.source_text(file);
        copyright_diagnostics(text.as_str(), fields)
    }
}

} // verus!

verus! {

/// What `debian_changelog` finds in a changelog when asked for the entries
/// that intersect the byte range `start..end`: each as the byte offset
/// where it starts, its text, and its distributions, if it has any.
pub uninterp spec fn changelog_entries_in_range_of(text: Seq<char>, start: int, end: int) -> Seq<(int, Seq<char>, Option<Seq<Seq<char>>>)>;

/// A changelog entry as plain values.
pub open spec fn clentry_view(e: (usize, String, Option<Vec<String>>)) -> (int, Seq<char>, Option<Seq<Seq<char>>>) {
    (
        e.0 as int,
        e.1@,
        match e.2 {
            Some(d) => Some(crate::order::names(d@)),
            None => None,
        },
    )
}

/// `ChangeLog::parse(text).tree().entries_in_range(start..end)` from
/// `debian_changelog`, each entry given as the start of its syntax node's
/// range, the node's text, and `Entry::distributions`. The result is named,
/// not described, except for one fact the lossless syntax tree gives: an
/// entry's text is the slice of `text` its node spans, so it ends within
/// `text`.
#[verifier::external_body]
fn changelog_entries_in_range(text: &str, range: TextRange) -> (r: Vec<(usize, String, Option<Vec<String>>)>)
    requires
        range.start <= range.end <= u32::MAX,
        fits_text_size(text@),
    ensures
        r@.map_values(|e: (usize, String, Option<Vec<String>>)| clentry_view(e))
            == changelog_entries_in_range_of(text@, range.start as int, range.end as int),
        forall|i: int| 0 <= i < r.len() ==> r@[i].0 + encode_utf8((#[trigger] r@[i]).1@).len() <= encode_utf8(text@).len(),
{
    let changelog = debian_changelog::ChangeLog::parse(text).tree();
    let range = rowan::TextRange::new((range.start as u32).into(), (range.end as u32).into());
    let mut r = Vec::new();
    for entry in changelog.entries_in_range(range) {
        let node = entry.syntax();
        r.push((node.text_range().start().into(), node.text().to_string(), entry.distributions()));
    }
    r
}

/// The first place at or after `k` where `p` occurs in `b`.
pub open spec fn find_bytes_from(b: Seq<u8>, p: Seq<u8>, k: int) -> Option<int>
    decreases b.len() - k,
{
    if k < 0 || k + p.len() > b.len() {
        None
    } else if b.subrange(k, k + p.len()) == p {
        Some(k)
    } else {
        proof {
            if p.len() == 0 {
                assert(b.subrange(k, k + p.len()) =~= p);
            }
        }
        find_bytes_from(b, p, k + 1)
    }
}

/// The marker that an entry headed for no distribution carries.
pub open spec fn unreleased_marker() -> Seq<u8> {
    encode_utf8(") UNRELEASED;"@)
}

/// The byte range of `UNRELEASED` in a changelog entry that starts at
/// `start` and whose first distribution is `UNRELEASED`: just after the
/// `) ` of the first `) UNRELEASED;` of its text.
pub open spec fn unreleased_range_of(e: (int, Seq<char>, Option<Seq<Seq<char>>>)) -> Option<(int, int)> {
    match e.2 {
        Some(dists) => if dists.len() > 0 && dists[0] == "UNRELEASED"@ {
            match find_bytes_from(encode_utf8(e.1), unreleased_marker(), 0) {
                Some(k) => Some((e.0 + k + 2, e.0 + k + 12)),
                None => None,
            }
        } else {
            None
        },
        None => None,
    }
}

/// The `UNRELEASED` ranges of the entries `es`, in order, each with the
/// distribution to upload to.
pub open spec fn unreleased_infos(
    es: Seq<(int, Seq<char>, Option<Seq<Seq<char>>>)>,
    target: Seq<char>,
) -> Seq<((int, int), Seq<char>)>
    decreases es.len(),
{
    if es.len() == 0 {
        seq![]
    } else {
        let prev = unreleased_infos(es.drop_last(), target);
        match unreleased_range_of(es.last()) {
            Some(r) => prev.push((r, target)),
            None => prev,
        }
    }
}

/// An `UNRELEASED` entry that can be marked for upload.
pub struct UnreleasedUploadInfo {
    pub unreleased_range: TextRange,
    pub target_distribution: String,
}

/// The models of a list of upload infos.
pub open spec fn infos_view(v: Seq<UnreleasedUploadInfo>) -> Seq<((int, int), Seq<char>)> {
    v.map_values(
        |i: UnreleasedUploadInfo|
            ((i.unreleased_range.start as int, i.unreleased_range.end as int), i.target_distribution@),
    )
}

/// Where `p` first occurs in `b` at or after 0.
fn find_bytes(b: &[u8], p: &[u8]) -> (r: Option<usize>)
    ensures
        match r {
            Some(k) => find_bytes_from(b@, p@, 0) == Some(k as int),
            None => find_bytes_from(b@, p@, 0).is_none(),
        },
{
    let mut k: usize = 0;
    while k <= b.len() && p.len() <= b.len() - k
        invariant
            find_bytes_from(b@, p@, 0) == find_bytes_from(b@, p@, k as int),
        decreases b.len() - k,
    {
        let mut j: usize = 0;
        while j < p.len() && b[k + j] == p[j]
            invariant
                k + p.len() <= b.len(),
                j <= p.len(),
                forall|m: int| 0 <= m < j ==> b@[k + m] == p@[m],
            decreases p.len() - j,
        {
            j += 1;
        }
        if j == p.len() {
            assert(b@.subrange(k as int, k + p.len()) =~= p@);
            return Some(k);
        }
        assert(b@.subrange(k as int, k + p.len())[j as int] != p@[j as int]);
        if k == b.len() {
            return None;
        }
        k += 1;
    }
    None
}

/// Find `UNRELEASED` entries of a changelog in the given range, each to
/// be marked for upload to the distribution of the newest released entry
/// (see [`target_distribution`]).
pub fn unreleased_entries_in_range(text: &str, range: TextRange) -> (r: Vec<
    UnreleasedUploadInfo,
>)
    requires
        fits_text_size(text@),
        range.start <= range.end <= u32::MAX,
    ensures
        infos_view(r@) == unreleased_infos(
            changelog_entries_in_range_of(text@, range.start as int, range.end as int),
            target_distribution_spec(text@),
        ),
{
    let target = target_distribution(text);
    let entries = changelog_entries_in_range(text, range);
    unreleased_infos_in(&entries, target.as_str())
}

/// The byte ranges of `UNRELEASED` in the changelog entries `entries`
/// (start offset, text, distributions), in order, each to be marked for
/// upload to `target_distribution`.
pub fn unreleased_infos_in(entries: &Vec<(usize, String, Option<Vec<String>>)>, target_distribution: &str) -> (r: Vec<
    UnreleasedUploadInfo,
>)
    requires
        forall|j: int| 0 <= j < entries.len() ==> entries@[j].0 + encode_utf8((#[trigger] entries@[j]).1@).len() <= usize::MAX,
    ensures
        infos_view(r@) == unreleased_infos(
            entries@.map_values(|e: (usize, String, Option<Vec<String>>)| clentry_view(e)),
            target_distribution@,
        ),
{
    let ghost es = entries@.map_values(|e: (usize, String, Option<Vec<String>>)| clentry_view(e));
    let marker_str = ") UNRELEASED;";
    proof {
        reveal_strlit(") UNRELEASED;");
        vstd::string::is_ascii_spec_bytes(marker_str);
        assert(vstd::string::is_ascii(marker_str));
    }
    let marker = marker_str.as_bytes();
    assert(marker@.len() == 13);
    let mut results: Vec<UnreleasedUploadInfo> = Vec::new();
    let mut i: usize = 0;
    while i < entries.len()
        invariant
            i <= entries.len(),
            es == entries@.map_values(|e: (usize, String, Option<Vec<String>>)| clentry_view(e)),
            marker@ == unreleased_marker(),
            marker@.len() == 13,
            forall|j: int| 0 <= j < entries.len() ==> entries@[j].0 + encode_utf8((#[trigger] entries@[j]).1@).len() <= usize::MAX,
            infos_view(results@) == unreleased_infos(es.take(i as int), target_distribution@),
        decreases entries.len() - i,
    {
        let (start, entry_text, dists) = &entries[i];
        let ghost e = es[i as int];
        assert(e == clentry_view(entries@[i as int]));
        assert(es.take(i + 1).drop_last() =~= es.take(i as int));
        assert(es.take(i + 1).last() == e);
        let unreleased = match dists {
            Some(d) => d.len() > 0 && str_eq(d[0].as_str(), "UNRELEASED"),
            None => false,
        };
        if unreleased {
            let bytes = entry_text.as_str().as_bytes();
            if let Some(k) = find_bytes(bytes, marker) {
                assert(k + marker@.len() <= bytes@.len()) by {
                    lemma_find_bytes_from(bytes@, marker@, 0);
                }
                proof {
                    reveal_strlit("UNRELEASED");
                }
                let ghost before = infos_view(results@);
                results.push(
                    UnreleasedUploadInfo {
                        unreleased_range: TextRange { start: *start + k + 2, end: *start + k + 12 },
                        target_distribution: String::from_str(target_distribution),
                    },
                );
                assert(infos_view(results@) =~= before.push(
                    (unreleased_range_of(e)->0, target_distribution@),
                ));
            }
        }
        i += 1;
    }
    assert(es.take(entries.len() as int) =~= es);
    results
}

/// The distribution of the newest entry of `es` (listed newest first) that
/// was released: the first entry whose first distribution is other than
/// `UNRELEASED`.
pub open spec fn released_distribution(es: Seq<(int, Seq<char>, Option<Seq<Seq<char>>>)>) -> Option<
    Seq<char>,
>
    decreases es.len(),
{
    if es.len() == 0 {
        None
    } else {
        match es[0].2 {
            Some(d) => if d.len() > 0 && d[0] != "UNRELEASED"@ {
                Some(d[0])
            } else {
                released_distribution(es.drop_first())
            },
            None => released_distribution(es.drop_first()),
        }
    }
}

/// The entries of a whole changelog, newest first, as `debian_changelog`
/// gives them for the byte range that covers all of `text`.
pub open spec fn changelog_entries_of(text: Seq<char>) -> Seq<(int, Seq<char>, Option<Seq<Seq<char>>>)> {
    changelog_entries_in_range_of(text, 0, encode_utf8(text).len() as int)
}

/// The distribution an `UNRELEASED` entry is uploaded to: that of the
/// newest released entry, or `unstable` when no entry was released.
pub open spec fn target_distribution_spec(text: Seq<char>) -> Seq<char> {
    target_of(changelog_entries_of(text))
}

/// The distribution to mark the `UNRELEASED` entries of the changelog
/// `text` for upload to: that of its newest released entry, `unstable`
/// when it has none.
pub fn target_distribution(text: &str) -> (r: String)
    requires
        fits_text_size(text@),
    ensures
        r@ == target_distribution_spec(text@),
{
    let len = text.as_bytes().len();
    let entries = changelog_entries_in_range(text, TextRange { start: 0, end: len });
    released_target(&entries)
}

/// The distribution to upload to after the changelog entries `entries`,
/// newest first: see [`target_of`].
pub open spec fn target_of(es: Seq<(int, Seq<char>, Option<Seq<Seq<char>>>)>) -> Seq<char> {
    match released_distribution(es) {
        Some(d) => d,
        None => "unstable"@,
    }
}

/// The distribution of the newest released entry of `entries` (start
/// offset, text, distributions; newest first), `unstable` when none was
/// released.
pub fn released_target(entries: &Vec<(usize, String, Option<Vec<String>>)>) -> (r: String)
    ensures
        r@ == target_of(entries@.map_values(|e: (usize, String, Option<Vec<String>>)| clentry_view(e))),
{
    let ghost es = entries@.map_values(|e: (usize, String, Option<Vec<String>>)| clentry_view(e));
    proof {
        reveal_strlit("UNRELEASED");
    }
    let mut i: usize = 0;
    assert(es.skip(0) =~= es);
    while i < entries.len()
        invariant
            i <= entries.len(),
            es == entries@.map_values(|e: (usize, String, Option<Vec<String>>)| clentry_view(e)),
            released_distribution(es) == released_distribution(es.skip(i as int)),
        decreases entries.len() - i,
    {
        let ghost rest = es.skip(i as int);
        assert(rest[0] == clentry_view(entries@[i as int]));
        assert(rest.drop_first() =~= es.skip(i + 1));
        if let Some(d) = &entries[i].2 {
            if d.len() > 0 && !str_eq(d[0].as_str(), "UNRELEASED") {
                assert(crate::order::names(d@)[0] == d@[0]@);
                return String::from_str(d[0].as_str());
            }
        }
        i += 1;
    }
    assert(es.skip(i as int).len() == 0);
    proof {
        reveal_strlit("unstable");
    }
    String::from_str("unstable")
}

/// Where `find_bytes_from` finds `p`, `p` fits.
pub proof fn lemma_find_bytes_from(b: Seq<u8>, p: Seq<u8>, k: int)
    ensures
        find_bytes_from(b, p, k) matches Some(m) ==> k <= m && m + p.len() <= b.len(),
    decreases b.len() - k,
{
    if k >= 0 && k + p.len() <= b.len() && b.subrange(k, k + p.len()) != p {
        if p.len() == 0 {
            assert(b.subrange(k, k + p.len()) =~= p);
        }
        lemma_find_bytes_from(b, p, k + 1);
    }
}

impl Workspace {
    /// Find UNRELEASED entries in the given range that can be marked for
    /// upload, to the distribution of the newest released entry.
    pub fn find_unreleased_entries_in_range(
        &self,
        file: SourceFile,
        range: TextRange,
    ) -> (r: Vec<UnreleasedUploadInfo>)
        requires
            fits_text_size(self@[file.id as int].1),
            file.id < self@.len(),
            range.start <= range.end <= u32::MAX,
        ensures
            infos_view(r@) == unreleased_infos(
                changelog_entries_in_range_of(
                    self@[file.id as int].1,
                    range.start as int,
                    range.end as int,
                ),
                target_distribution_spec(self@[file.id as int].1),
            ),
    {
        let text = self.source_text(file);
        unreleased_entries_in_range(text.as_str(), range)
    }
}

} // verus!

verus! {

/// The first case-insensitive match of a name is a name of the table that
/// equals it up to ASCII case.
pub proof fn lemma_first_ci_match(names: Seq<Seq<char>>, name: Seq<char>)
    ensures
        first_ci_match(names, name) matches Some(s) ==> names.contains(s)
            && crate::text::eq_ignore_ascii_case(s, name),
    decreases names.len(),
{
    if names.len() > 0 && !crate::text::eq_ignore_ascii_case(names[0], name) {
        lemma_first_ci_match(names.drop_first(), name);
        if let Some(s) = first_ci_match(names.drop_first(), name) {
            let j = choose|j: int| 0 <= j < names.drop_first().len() && names.drop_first()[j] == s;
            assert(names[j + 1] == s);
        }
    } else if names.len() > 0 {
        assert(names[0] == names[0]);
    }
}

/// Every casing issue names a field of the table that the written name
/// equals up to ASCII case but not exactly, and a field name range.
pub proof fn lemma_casing_issues_are_case_only(
    es: Seq<((int, int), Option<Seq<char>>, Option<(int, int)>)>,
    range: Option<TextRange>,
    names: Seq<Seq<char>>,
)
    ensures
        forall|i: int|
            0 <= i < casing_issues(es, range, names).len() ==> {
                let issue = #[trigger] casing_issues(es, range, names)[i];
                &&& issue.0 != issue.1
                &&& names.contains(issue.1)
                &&& crate::text::eq_ignore_ascii_case(issue.1, issue.0)
            },
    decreases es.len(),
{
    if es.len() > 0 {
        lemma_casing_issues_are_case_only(es.drop_last(), range, names);
        let e = es.last();
        if let Some(key) = e.1 {
            lemma_first_ci_match(names, key);
        }
        let prev = casing_issues(es.drop_last(), range, names);
        assert forall|i: int| 0 <= i < casing_issues(es, range, names).len() implies {
            let issue = #[trigger] casing_issues(es, range, names)[i];
            &&& issue.0 != issue.1
            &&& names.contains(issue.1)
            &&& crate::text::eq_ignore_ascii_case(issue.1, issue.0)
        } by {
            if i < prev.len() {
                assert(casing_issues(es, range, names)[i] == prev[i]);
            }
        }
    }
}

/// `f` places the items of `a`, in order, among those of `b`.
pub open spec fn embeds<A>(a: Seq<A>, b: Seq<A>, f: spec_fn(int) -> int) -> bool {
    &&& forall|i: int| 0 <= i < a.len() ==> 0 <= #[trigger] f(i) < b.len() && a[i] == b[f(i)]
    &&& forall|i: int, j: int| 0 <= i < j < a.len() ==> #[trigger] f(i) < #[trigger] f(j)
}

/// `a` is a subsequence of `b`: its items occur in `b` in the same order.
pub open spec fn is_subsequence<A>(a: Seq<A>, b: Seq<A>) -> bool {
    exists|f: spec_fn(int) -> int| embeds(a, b, f)
}

/// The placement of the issues found in a range among those of the file.
proof fn casing_embedding(
    es: Seq<((int, int), Option<Seq<char>>, Option<(int, int)>)>,
    range: TextRange,
    names: Seq<Seq<char>>,
) -> (f: spec_fn(int) -> int)
    ensures
        embeds(casing_issues(es, Some(range), names), casing_issues(es, None, names), f),
    decreases es.len(),
{
    if es.len() == 0 {
        |i: int| i
    } else {
        let g = casing_embedding(es.drop_last(), range, names);
        let a = casing_issues(es.drop_last(), Some(range), names);
        let b = casing_issues(es.drop_last(), None, names);
        let e = es.last();
        if entry_casing_issue(e, names) is Some {
            if !entry_outside(e.0.0, e.0.1, Some(range)) {
                let f = |i: int| if i == a.len() { b.len() as int } else { g(i) };
                assert(embeds(casing_issues(es, Some(range), names), casing_issues(es, None, names), f));
                f
            } else {
                assert(embeds(casing_issues(es, Some(range), names), casing_issues(es, None, names), g));
                g
            }
        } else {
            g
        }
    }
}

/// The casing issues found within a range are among those of the whole
/// file, in the same order.
pub proof fn lemma_range_issues_subsequence(
    es: Seq<((int, int), Option<Seq<char>>, Option<(int, int)>)>,
    range: TextRange,
    names: Seq<Seq<char>>,
)
    ensures
        is_subsequence(casing_issues(es, Some(range), names), casing_issues(es, None, names)),
{
    let f = casing_embedding(es, range, names);
}

/// Where no entry lies outside the range, the range keeps every issue.
proof fn lemma_range_keeps_all(
    es: Seq<((int, int), Option<Seq<char>>, Option<(int, int)>)>,
    range: TextRange,
    names: Seq<Seq<char>>,
)
    requires
        forall|i: int| 0 <= i < es.len() ==> !entry_outside((#[trigger] es[i]).0.0, es[i].0.1, Some(range)),
    ensures
        casing_issues(es, Some(range), names) == casing_issues(es, None, names),
    decreases es.len(),
{
    if es.len() > 0 {
        assert forall|i: int| 0 <= i < es.drop_last().len() implies !entry_outside(
            (#[trigger] es.drop_last()[i]).0.0,
            es.drop_last()[i].0.1,
            Some(range),
        ) by {
            assert(es.drop_last()[i] == es[i]);
        }
        lemma_range_keeps_all(es.drop_last(), range, names);
        assert(es.last() == es[es.len() - 1]);
    }
}

/// For the range covering the whole text, the casing issues are all those
/// of the file, for entries that lie in the text and are not empty.
pub proof fn lemma_whole_range_keeps_all(
    es: Seq<((int, int), Option<Seq<char>>, Option<(int, int)>)>,
    len: int,
    names: Seq<Seq<char>>,
)
    requires
        0 <= len <= usize::MAX,
        forall|i: int| 0 <= i < es.len() ==> 0 <= (#[trigger] es[i]).0.0 < es[i].0.1 <= len,
    ensures
        casing_issues(es, Some(TextRange { start: 0, end: len as usize }), names) == casing_issues(es, None, names),
{
    lemma_range_keeps_all(es, TextRange { start: 0, end: len as usize }, names);
}

/// The copyright diagnostics of a file are its casing issues, one for one
/// and in order, each reported at the range of its field name with the
/// message `Field name '<written>' should be '<standard>'`.
pub proof fn lemma_diagnostics_report_issues(text: Seq<char>, names: Seq<Seq<char>>)
    ensures
        ({
            let issues = casing_issues(copyright_entries_of(text), None, names);
            let ds = issues.map_values(|i: CasingModel| casing_diagnostic(text, i));
            &&& ds.len() == issues.len()
            &&& forall|i: int| 0 <= i < ds.len() ==> {
                &&& (#[trigger] ds[i]).0 == crate::lsp::Range {
                    start: position_at(text, issues[i].2.0),
                    end: position_at(text, issues[i].2.1),
                }
                &&& ds[i].3 == Some("debian-lsp"@)
                &&& ds[i].4 == "Field name '"@ + issues[i].0 + "' should be '"@ + issues[i].1 + "'"@
            }
        }),
{
}

} // verus!
