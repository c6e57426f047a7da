//! Reporting diagnostics from the command line: gcc-style lines, SARIF
//! results, and the count of errors that decides the exit status.

use vstd::prelude::*;
use crate::lsp::{CodeModel, Diagnostic, DiagnosticSeverity, NumberOrString};
use crate::text::{concat, decimal, decimal_string, i32_string, signed_decimal, str_eq};

verus! {

/// The label of a severity in gcc-style output.
pub open spec fn severity_label_spec(severity: Option<DiagnosticSeverity>) -> Seq<char> {
    match severity {
        Some(DiagnosticSeverity::Error) => "error"@,
        Some(DiagnosticSeverity::Warning) => "warning"@,
        Some(DiagnosticSeverity::Information) => "note"@,
        Some(DiagnosticSeverity::Hint) => "note"@,
        None => "error"@,
    }
}

/// Severity level for a diagnostic, used in gcc-style output.
pub fn severity_label(severity: Option<DiagnosticSeverity>) -> (r: &'static str)
    ensures
        r@ == severity_label_spec(severity),
{
    match severity {
        Some(DiagnosticSeverity::Error) => "error",
        Some(DiagnosticSeverity::Warning) => "warning",
        Some(DiagnosticSeverity::Information) => "note",
        Some(DiagnosticSeverity::Hint) => "note",
        None => "error",
    }
}

/// The SARIF level of a severity.
pub open spec fn sarif_level_spec(severity: Option<DiagnosticSeverity>) -> Seq<char> {
    match severity {
        Some(DiagnosticSeverity::Error) => "error"@,
        Some(DiagnosticSeverity::Warning) => "warning"@,
        Some(DiagnosticSeverity::Information) => "note"@,
        Some(DiagnosticSeverity::Hint) => "note"@,
        None => "warning"@,
    }
}

/// SARIF level for a diagnostic.
///
/// Maps LSP severities onto the four SARIF levels defined by the 2.1.0 spec
/// (`error`, `warning`, `note`, `none`). Defaults to `warning` when the LSP
/// severity is absent, matching the SARIF spec's recommended default.
pub fn sarif_level(severity: Option<DiagnosticSeverity>) -> (r: &'static str)
    ensures
        r@ == sarif_level_spec(severity),
{
    match severity {
        Some(DiagnosticSeverity::Error) => "error",
        Some(DiagnosticSeverity::Warning) => "warning",
        Some(DiagnosticSeverity::Information) => "note",
        Some(DiagnosticSeverity::Hint) => "note",
        None => "warning",
    }
}

/// A diagnostic counts as an error in the exit status when its label is
/// `error`.
pub open spec fn counts_as_error(d: Diagnostic) -> bool {
    severity_label_spec(d.severity) == "error"@
}

/// Whether a diagnostic counts as an error.
pub fn is_error(diag: &Diagnostic) -> (r: bool)
    ensures
        r == counts_as_error(*diag),
{
    str_eq(severity_label(diag.severity), "error")
}

/// The gcc-style line for a diagnostic of file `path`:
/// `path:line: severity: message`, the line counted from 1.
pub open spec fn gcc_line_spec(path: Seq<char>, d: Diagnostic) -> Seq<char> {
    path + ":"@ + decimal((d.range.start.line + 1) as nat) + ": "@ + severity_label_spec(d.severity)
        + ": "@ + d.message@
}

/// The gcc-style line reporting `diag` in file `path`.
pub fn gcc_line(path: &str, diag: &Diagnostic) -> (r: String)
    ensures
        r@ == gcc_line_spec(path@, *diag),
{
    let mut s = concat(path, ":");
    s.append(decimal_string(diag.range.start.line as u64 + 1).as_str());
    s.append(": ");
    s.append(severity_label(diag.severity));
    s.append(": ");
    s.append(diag.message.as_str());
    s
}

/// A SARIF region, its lines and columns counted from 1.
pub struct SarifRegion {
    pub start_line: u64,
    pub start_column: u64,
    pub end_line: u64,
    pub end_column: u64,
}

/// A SARIF `result` object, before it is written as JSON.
pub struct SarifResult {
    pub level: String,
    pub message: String,
    pub uri: String,
    pub region: SarifRegion,
    pub rule_id: Option<String>,
}

/// The rule id SARIF gives a diagnostic code.
pub open spec fn rule_id_spec(code: Option<CodeModel>) -> Option<Seq<char>> {
    match code {
        Some(CodeModel::Number(n)) => Some(signed_decimal(n)),
        Some(CodeModel::Text(s)) => Some(s),
        None => None,
    }
}

/// `r` is the SARIF result reporting `d` in file `path`.
pub open spec fn is_sarif_result(r: SarifResult, path: Seq<char>, d: Diagnostic) -> bool {
    &&& r.level@ == sarif_level_spec(d.severity)
    &&& r.message@ == d.message@
    &&& r.uri@ == path
    &&& r.region.start_line == d.range.start.line + 1
    &&& r.region.start_column == d.range.start.character + 1
    &&& r.region.end_line == d.range.end.line + 1
    &&& r.region.end_column == d.range.end.character + 1
    &&& match r.rule_id {
        Some(id) => rule_id_spec(d@.2) == Some(id@),
        None => rule_id_spec(d@.2).is_none(),
    }
}

/// Convert a single LSP `Diagnostic` to a SARIF `result` object.
pub fn diagnostic_to_sarif_result(path: &str, diag: &Diagnostic) -> (r: SarifResult)
    ensures
        is_sarif_result(r, path@, *diag),
{
    let rule_id = match &diag.code {
        Some(NumberOrString::Number(n)) => Some(i32_string(*n)),
        Some(NumberOrString::String(s)) => Some(s.clone()),
        None => None,
    };
    SarifResult {
        level: String::from_str(sarif_level(diag.severity)),
        message: diag.message.clone(),
        uri: String::from_str(path),
        region: SarifRegion {
            start_line: diag.range.start.line as u64 + 1,
            start_column: diag.range.start.character as u64 + 1,
            end_line: diag.range.end.line as u64 + 1,
            end_column: diag.range.end.character as u64 + 1,
        },
        rule_id,
    }
}

/// What checking one file reports: its gcc-style lines or its SARIF
/// results, and how many of its diagnostics are errors.
pub struct FileReport {
    pub lines: Vec<String>,
    pub results: Vec<SarifResult>,
    pub errors: usize,
}

/// The number of errors among `ds`.
pub open spec fn error_count(ds: Seq<Diagnostic>) -> nat
    decreases ds.len(),
{
    if ds.len() == 0 {
        0
    } else {
        error_count(ds.drop_last()) + if counts_as_error(ds.last()) {
            1nat
        } else {
            0nat
        }
    }
}

/// The report on the diagnostics of file `path`: SARIF results when
/// `sarif` is set, gcc-style lines otherwise, one per diagnostic in order.
pub fn report_file(path: &str, diagnostics: &Vec<Diagnostic>, sarif: bool) -> (r: FileReport)
    ensures
        r.errors == error_count(diagnostics@),
        sarif ==> r.lines.len() == 0 && r.results.len() == diagnostics.len() && forall|i: int|
            0 <= i < diagnostics.len() ==> #[trigger] is_sarif_result(
                r.results@[i],
                path@,
                diagnostics@[i],
            ),
        !sarif ==> r.results.len() == 0 && r.lines.len() == diagnostics.len() && forall|i: int|
            0 <= i < diagnostics.len() ==> #[trigger] r.lines@[i]@ == gcc_line_spec(
                path@,
                diagnostics@[i],
            ),
{
    let mut lines: Vec<String> = Vec::new();
    let mut results: Vec<SarifResult> = Vec::new();
    let mut errors: usize = 0;
    let mut i: usize = 0;
    while i < diagnostics.len()
        invariant
            i <= diagnostics.len(),
            errors == error_count(diagnostics@.take(i as int)),
            errors <= i,
            sarif ==> lines.len() == 0 && results.len() == i && forall|j: int|
                0 <= j < i ==> #[trigger] is_sarif_result(results@[j], path@, diagnostics@[j]),
            !sarif ==> results.len() == 0 && lines.len() == i && forall|j: int|
                0 <= j < i ==> #[trigger] lines@[j]@ == gcc_line_spec(path@, diagnostics@[j]),
        decreases diagnostics.len() - i,
    {
        let diag = &diagnostics[i];
        assert(diagnostics@.take(i + 1).drop_last() =~= diagnostics@.take(i as int));
        if is_error(diag) {
            errors += 1;
        }
        if sarif {
            results.push(diagnostic_to_sarif_result(path, diag));
        } else {
            lines.push(gcc_line(path, diag));
        }
        i += 1;
    }
    assert(diagnostics@.take(diagnostics.len() as int) =~= diagnostics@);
    FileReport { lines, results, errors }
}

} // verus!

verus! {

/// The directories that a recursive walk leaves out: those of version
/// control systems and Python caches.
pub open spec fn skipped_dirs() -> Seq<Seq<char>> {
    seq![".git"@, ".hg"@, ".svn"@, ".bzr"@, "__pycache__"@, ".tox"@]
}

/// Whether a recursive walk leaves out the directory named `name`.
pub fn is_skipped_dir(name: &str) -> (r: bool)
    ensures
        r == skipped_dirs().contains(name@),
{
    let dirs = [".git", ".hg", ".svn", ".bzr", "__pycache__", ".tox"];
    let mut i: usize = 0;
    while i < 6
        invariant
            i <= 6,
            dirs@.map_values(|d: &str| d@) == skipped_dirs(),
            forall|j: int| 0 <= j < i ==> skipped_dirs()[j] != name@,
        decreases 6 - i,
    {
        if str_eq(dirs[i], name) {
            assert(skipped_dirs()[i as int] == name@);
            return true;
        }
        i += 1;
    }
    false
}

/// A diagnostic with no severity counts as an error; of the others, only
/// errors do.
pub proof fn lemma_counts_as_error(d: Diagnostic)
    ensures
        counts_as_error(d) <==> (d.severity is None || d.severity == Some(DiagnosticSeverity::Error)),
{
    reveal_strlit("error");
    reveal_strlit("warning");
    reveal_strlit("note");
    assert("warning"@[0] != "error"@[0]);
    assert("note"@.len() != "error"@.len());
}

} // verus!
