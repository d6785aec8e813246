use sqlsift::diagnostic::{enabled_diagnostics, format_message, span_to_range, EditorRange};
use sqlsift::{Diagnostic, DiagnosticKind, Severity, Span};

#[test]
fn test_format_message_with_help() {
    let diag = Diagnostic::error(DiagnosticKind::TableNotFound, "Table 'foo' not found")
        .with_help("Did you mean 'bar'?");
    let msg = format_message(&diag);
    assert_eq!(msg, "Table 'foo' not found\n\nHelp: Did you mean 'bar'?");
}

#[test]
fn test_format_message_without_help() {
    let diag = Diagnostic::error(DiagnosticKind::TableNotFound, "Table 'foo' not found");
    let msg = format_message(&diag);
    assert_eq!(msg, "Table 'foo' not found");
}

#[test]
fn test_span_to_range_1indexed_to_0indexed() {
    let span = Span::with_location(1, 1, 5);
    let range = span_to_range(Some(span));
    assert_eq!(range.start_line, 0);
    assert_eq!(range.start_character, 0);
    assert_eq!(range.end_character, 5);
}

#[test]
fn test_span_to_range_no_span() {
    let range = span_to_range(None);
    assert_eq!(range, EditorRange::default());
}

#[test]
fn test_span_to_range_zero_line_fallback() {
    let span = Span::new(0, 10);
    let range = span_to_range(Some(span));
    assert_eq!(range, EditorRange::default());
}

#[test]
fn span_to_range_offsets_line_and_column() {
    let range = span_to_range(Some(Span::with_location(3, 7, 4)));
    assert_eq!(range.start_line, 2);
    assert_eq!(range.end_line, 2);
    assert_eq!(range.start_character, 6);
    assert_eq!(range.end_character, 10);
}

#[test]
fn span_to_range_saturates() {
    let range = span_to_range(Some(Span::with_location(1, 2, usize::MAX)));
    assert_eq!(range.start_character, 1);
    assert_eq!(range.end_character, u32::MAX);
}

#[test]
fn test_disabled_rules_filtering() {
    let diagnostics = vec![
        Diagnostic::error(DiagnosticKind::TableNotFound, "Table 'a'"),
        Diagnostic::error(DiagnosticKind::ColumnNotFound, "Column 'b'"),
        Diagnostic::error(DiagnosticKind::TypeMismatch, "Type mismatch"),
    ];
    let disabled = vec!["E0001".to_string()];
    let result = enabled_diagnostics(diagnostics, &disabled);
    assert_eq!(result.len(), 2);
    assert_eq!(result[0].code(), "E0002");
    assert_eq!(result[1].code(), "E0003");
}

#[test]
fn unknown_disabled_code_matches_nothing() {
    let diagnostics = vec![Diagnostic::error(DiagnosticKind::AmbiguousColumn, "x")];
    let disabled = vec!["W0001".to_string(), "e0004".to_string()];
    assert_eq!(enabled_diagnostics(diagnostics, &disabled).len(), 1);
}

#[test]
fn codes_are_stable() {
    assert_eq!(DiagnosticKind::TableNotFound.code(), "E0001");
    assert_eq!(DiagnosticKind::ColumnNotFound.code(), "E0002");
    assert_eq!(DiagnosticKind::TypeMismatch.code(), "E0003");
    assert_eq!(DiagnosticKind::AmbiguousColumn.code(), "E0004");
    assert_eq!(DiagnosticKind::ColumnCountMismatch.code(), "E0005");
    assert_eq!(DiagnosticKind::ParseError.code(), "E0006");
}

#[test]
fn error_and_warning_severity() {
    let e = Diagnostic::error(DiagnosticKind::ParseError, "bad");
    assert_eq!(e.severity, Severity::Error);
    let w = Diagnostic::warning(DiagnosticKind::TableNotFound, "missing");
    assert_eq!(w.severity, Severity::Warning);
    assert!(w.help.is_none());
}
