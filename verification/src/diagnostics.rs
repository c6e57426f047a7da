//! Putting together the diagnostics of a document from the sources that
//! produce them.

use vstd::prelude::*;
use crate::lsp::{Diagnostic, DiagnosticModel, diagnostics_view};

verus! {

/// The diagnostics of two sources, either of which may have nothing to say
/// (`None`): the first's followed by the second's, or nothing when neither
/// spoke.
pub open spec fn merged(a: Option<Seq<DiagnosticModel>>, b: Option<Seq<DiagnosticModel>>) -> Option<Seq<DiagnosticModel>> {
    match (a, b) {
        (None, None) => None,
        (Some(x), None) => Some(x),
        (None, Some(y)) => Some(y),
        (Some(x), Some(y)) => Some(x + y),
    }
}

/// The view of an optional list of diagnostics.
pub open spec fn opt_diags(o: Option<Vec<Diagnostic>>) -> Option<Seq<DiagnosticModel>> {
    match o {
        Some(v) => Some(diagnostics_view(v@)),
        None => None,
    }
}

/// Merge the diagnostics of two sources.
pub fn merge_diagnostics(a: Option<Vec<Diagnostic>>, b: Option<Vec<Diagnostic>>) -> (r: Option<Vec<Diagnostic>>)
    ensures
        opt_diags(r) == merged(opt_diags(a), opt_diags(b)),
{
    match (a, b) {
        (None, None) => None,
        (Some(x), None) => Some(x),
        (None, Some(y)) => Some(y),
        (Some(mut x), Some(mut y)) => {
            let ghost xv = diagnostics_view(x@);
            let ghost yv = diagnostics_view(y@);
            x.append(&mut y);
            assert(diagnostics_view(x@) =~= xv + yv);
            Some(x)
        },
    }
}

/// The diagnostics of a document: its built-in ones, then those of the
/// lintian-brush detectors, then those of the multiarch hints, each source
/// possibly silent.
pub fn collect_diagnostics(
    builtin: Option<Vec<Diagnostic>>,
    lintian_brush: Option<Vec<Diagnostic>>,
    multiarch_hints: Option<Vec<Diagnostic>>,
) -> (r: Option<Vec<Diagnostic>>)
    ensures
        opt_diags(r) == merged(
            merged(opt_diags(builtin), opt_diags(lintian_brush)),
            opt_diags(multiarch_hints),
        ),
{
    let combined = merge_diagnostics(builtin, lintian_brush);
    merge_diagnostics(combined, multiarch_hints)
}

/// Merging is associative: how the sources are grouped does not change
/// what is published.
pub proof fn lemma_merged_associative(
    a: Option<Seq<DiagnosticModel>>,
    b: Option<Seq<DiagnosticModel>>,
    c: Option<Seq<DiagnosticModel>>,
)
    ensures
        merged(merged(a, b), c) == merged(a, merged(b, c)),
{
    if let (Some(x), Some(y), Some(z)) = (a, b, c) {
        assert((x + y) + z =~= x + (y + z));
    }
}

} // verus!
