use debian_lsp::check::{
    diagnostic_to_sarif_result, gcc_line, is_error, is_skipped_dir, report_file, sarif_level,
    severity_label,
};
use debian_lsp::lsp::{Diagnostic, DiagnosticSeverity, NumberOrString, Position, Range};
use debian_lsp::text::{decimal_string, i32_string};

fn diag(severity: Option<DiagnosticSeverity>, code: Option<NumberOrString>) -> Diagnostic {
    Diagnostic {
        range: Range::new(Position::new(2, 4), Position::new(2, 9)),
        severity,
        code,
        source: Some("debian-lsp".to_string()),
        message: "Something is off".to_string(),
    }
}

#[test]
fn severity_labels() {
    assert_eq!(severity_label(Some(DiagnosticSeverity::Error)), "error");
    assert_eq!(severity_label(Some(DiagnosticSeverity::Warning)), "warning");
    assert_eq!(severity_label(Some(DiagnosticSeverity::Information)), "note");
    assert_eq!(severity_label(Some(DiagnosticSeverity::Hint)), "note");
    assert_eq!(severity_label(None), "error");
}

#[test]
fn sarif_levels() {
    assert_eq!(sarif_level(Some(DiagnosticSeverity::Error)), "error");
    assert_eq!(sarif_level(Some(DiagnosticSeverity::Warning)), "warning");
    assert_eq!(sarif_level(Some(DiagnosticSeverity::Hint)), "note");
    assert_eq!(sarif_level(None), "warning");
}

#[test]
fn gcc_line_counts_from_one() {
    let d = diag(Some(DiagnosticSeverity::Warning), None);
    assert_eq!(gcc_line("debian/control", &d), "debian/control:3: warning: Something is off");
}

#[test]
fn sarif_result_fields() {
    let d = diag(Some(DiagnosticSeverity::Error), Some(NumberOrString::String("field-casing".to_string())));
    let r = diagnostic_to_sarif_result("debian/copyright", &d);
    assert_eq!(r.level, "error");
    assert_eq!(r.message, "Something is off");
    assert_eq!(r.uri, "debian/copyright");
    assert_eq!((r.region.start_line, r.region.start_column), (3, 5));
    assert_eq!((r.region.end_line, r.region.end_column), (3, 10));
    assert_eq!(r.rule_id.as_deref(), Some("field-casing"));
}

#[test]
fn sarif_rule_id_of_a_number() {
    let d = diag(None, Some(NumberOrString::Number(-42)));
    assert_eq!(diagnostic_to_sarif_result("f", &d).rule_id.as_deref(), Some("-42"));
    let d = diag(None, None);
    assert_eq!(diagnostic_to_sarif_result("f", &d).rule_id, None);
}

#[test]
fn errors_are_counted() {
    assert!(is_error(&diag(Some(DiagnosticSeverity::Error), None)));
    assert!(is_error(&diag(None, None)));
    assert!(!is_error(&diag(Some(DiagnosticSeverity::Warning), None)));
    let ds = vec![
        diag(Some(DiagnosticSeverity::Error), None),
        diag(Some(DiagnosticSeverity::Warning), None),
        diag(None, None),
    ];
    let report = report_file("p", &ds, false);
    assert_eq!(report.errors, 2);
    assert_eq!(report.lines.len(), 3);
    assert!(report.results.is_empty());
    let sarif = report_file("p", &ds, true);
    assert_eq!(sarif.results.len(), 3);
    assert!(sarif.lines.is_empty());
}

#[test]
fn vcs_directories_are_skipped() {
    assert!(is_skipped_dir(".git"));
    assert!(is_skipped_dir("__pycache__"));
    assert!(!is_skipped_dir("debian"));
}

#[test]
fn decimal_rendering() {
    assert_eq!(decimal_string(0), "0");
    assert_eq!(decimal_string(4294967296), "4294967296");
    assert_eq!(i32_string(i32::MIN), "-2147483648");
    assert_eq!(i32_string(7), "7");
}

use debian_lsp::diagnostics::{collect_diagnostics, merge_diagnostics};

#[test]
fn merging_keeps_order_and_silence() {
    let a = vec![diag(Some(DiagnosticSeverity::Error), None)];
    let b = vec![diag(Some(DiagnosticSeverity::Hint), None), diag(None, None)];
    assert!(merge_diagnostics(None, None).is_none());
    assert_eq!(merge_diagnostics(Some(a.clone()), None).map(|v| v.len()), Some(1));
    let m = merge_diagnostics(Some(a.clone()), Some(b.clone())).unwrap();
    assert_eq!(m.len(), 3);
    assert_eq!(m[0].severity, Some(DiagnosticSeverity::Error));
    assert_eq!(m[1].severity, Some(DiagnosticSeverity::Hint));
    let all = collect_diagnostics(None, Some(b), Some(a)).unwrap();
    assert_eq!(all.len(), 3);
    assert_eq!(all[2].severity, Some(DiagnosticSeverity::Error));
    assert!(collect_diagnostics(None, None, None).is_none());
}
