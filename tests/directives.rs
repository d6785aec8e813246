use sqlsift::directives::InlineDirectives;
use sqlsift::{Diagnostic, DiagnosticKind, Span};

#[test]
fn test_inline_same_line() {
    let directives = InlineDirectives::parse("SELECT bad_col FROM users -- sqlsift:disable E0002");
    assert!(directives.is_suppressed("E0002", 1));
    assert!(!directives.is_suppressed("E0001", 1));
}

#[test]
fn test_standalone_next_line() {
    let sql = "-- sqlsift:disable E0002\nSELECT bad_col FROM users";
    let directives = InlineDirectives::parse(sql);
    assert!(directives.is_suppressed("E0002", 2));
    assert!(!directives.is_suppressed("E0002", 1));
}

#[test]
fn test_multiple_codes() {
    let sql = "SELECT * FROM t -- sqlsift:disable E0001, E0002";
    let directives = InlineDirectives::parse(sql);
    assert!(directives.is_suppressed("E0001", 1));
    assert!(directives.is_suppressed("E0002", 1));
    assert!(!directives.is_suppressed("E0003", 1));
}

#[test]
fn test_disable_all() {
    let sql = "SELECT * FROM t -- sqlsift:disable";
    let directives = InlineDirectives::parse(sql);
    assert!(directives.is_suppressed("E0001", 1));
    assert!(directives.is_suppressed("E0002", 1));
    assert!(directives.is_suppressed("E9999", 1));
}

#[test]
fn test_standalone_disable_all_next_line() {
    let sql = "-- sqlsift:disable\nSELECT * FROM t";
    let directives = InlineDirectives::parse(sql);
    assert!(directives.is_suppressed("E0001", 2));
    assert!(!directives.is_suppressed("E0001", 1));
}

#[test]
fn test_multiple_standalone_directives_accumulate() {
    let sql = "-- sqlsift:disable E0001\n-- sqlsift:disable E0002\nSELECT * FROM t";
    let directives = InlineDirectives::parse(sql);
    assert!(directives.is_suppressed("E0001", 3));
    assert!(directives.is_suppressed("E0002", 3));
    assert!(!directives.is_suppressed("E0003", 3));
}

#[test]
fn test_no_directive() {
    let sql = "SELECT * FROM users";
    let directives = InlineDirectives::parse(sql);
    assert!(!directives.is_suppressed("E0001", 1));
}

#[test]
fn test_directive_inside_string_ignored() {
    let sql = "SELECT '-- sqlsift:disable E0002' FROM users";
    let directives = InlineDirectives::parse(sql);
    assert!(!directives.is_suppressed("E0002", 1));
}

#[test]
fn test_case_insensitive_codes() {
    let sql = "SELECT * FROM t -- sqlsift:disable e0002";
    let directives = InlineDirectives::parse(sql);
    assert!(directives.is_suppressed("E0002", 1));
}

#[test]
fn test_skip_empty_lines_between_directive_and_sql() {
    let sql = "-- sqlsift:disable E0001\n\nSELECT * FROM t";
    let directives = InlineDirectives::parse(sql);
    // Empty line doesn't consume the pending directive
    assert!(directives.is_suppressed("E0001", 3));
}

#[test]
fn test_comma_separated_no_spaces() {
    let sql = "SELECT * FROM t -- sqlsift:disable E0001,E0002";
    let directives = InlineDirectives::parse(sql);
    assert!(directives.is_suppressed("E0001", 1));
    assert!(directives.is_suppressed("E0002", 1));
}

#[test]
fn test_not_a_directive() {
    let sql = "SELECT * FROM t -- sqlsift:disabled E0002";
    let directives = InlineDirectives::parse(sql);
    assert!(!directives.is_suppressed("E0002", 1));
}

#[test]
fn test_double_quoted_identifier_with_dashes() {
    let sql = "SELECT \"col--name\" FROM t -- sqlsift:disable E0002";
    let directives = InlineDirectives::parse(sql);
    assert!(directives.is_suppressed("E0002", 1));
}

#[test]
fn escaped_quote_keeps_string_open() {
    let sql = "SELECT 'it''s -- sqlsift:disable E0002' FROM t";
    let directives = InlineDirectives::parse(sql);
    assert!(!directives.is_suppressed("E0002", 1));
}

#[test]
fn comment_line_between_keeps_pending() {
    let sql = "-- sqlsift:disable E0003\n-- plain remark\n\nSELECT 1\nSELECT 2";
    let directives = InlineDirectives::parse(sql);
    assert!(directives.is_suppressed("E0003", 4));
    assert!(!directives.is_suppressed("E0003", 5));
    assert!(!directives.is_suppressed("E0003", 2));
}

#[test]
fn directive_safety_other_code_and_line() {
    let sql = "SELECT a FROM t -- sqlsift:disable E0002\nSELECT b FROM t";
    let directives = InlineDirectives::parse(sql);
    assert!(directives.is_suppressed("E0002", 1));
    assert!(!directives.is_suppressed("E0001", 1));
    assert!(!directives.is_suppressed("E0002", 2));
}

#[test]
fn mixed_case_code_list() {
    let sql = "SELECT 1 -- sqlsift:disable e0001 E0004,e0005";
    let directives = InlineDirectives::parse(sql);
    assert!(directives.is_suppressed("E0001", 1));
    assert!(directives.is_suppressed("E0004", 1));
    assert!(directives.is_suppressed("E0005", 1));
    assert!(!directives.is_suppressed("e0001", 1));
}

#[test]
fn crlf_line_endings() {
    let sql = "-- sqlsift:disable E0002\r\nSELECT bad FROM users\r\n";
    let directives = InlineDirectives::parse(sql);
    assert!(directives.is_suppressed("E0002", 2));
    assert!(!directives.is_suppressed("E0002", 1));
}

#[test]
fn empty_text_has_no_directives() {
    let directives = InlineDirectives::parse("");
    assert!(!directives.is_suppressed("E0001", 1));
    assert!(!directives.is_suppressed("E0001", 0));
}

#[test]
fn filter_drops_only_suppressed_pairs() {
    // Only the diagnostic on line 3 survives.
    let sql = "-- sqlsift:disable E0002\nSELECT bad FROM users;\nSELECT worse FROM users";
    let directives = InlineDirectives::parse(sql);
    let diags = vec![
        Diagnostic::error(DiagnosticKind::ColumnNotFound, "Column 'bad' not found")
            .with_span(Span::with_location(2, 8, 3)),
        Diagnostic::error(DiagnosticKind::ColumnNotFound, "Column 'worse' not found")
            .with_span(Span::with_location(3, 8, 5)),
        Diagnostic::error(DiagnosticKind::TableNotFound, "Table 'x' not found")
            .with_span(Span::with_location(2, 1, 1)),
    ];
    let kept = directives.filter(diags);
    assert_eq!(kept.len(), 2);
    assert_eq!(kept[0].code(), "E0002");
    assert!(kept[0].message.contains("worse"));
    assert_eq!(kept[1].code(), "E0001");
}

#[test]
fn filter_keeps_diagnostics_without_location() {
    let directives = InlineDirectives::parse("SELECT 1 -- sqlsift:disable");
    let diags = vec![Diagnostic::error(DiagnosticKind::ParseError, "parse error")];
    assert_eq!(directives.filter(diags).len(), 1);
}

#[test]
fn pending_directive_reaches_line_with_own_directive() {
    let sql = "-- sqlsift:disable E0001\nSELECT 1 -- sqlsift:disable E0002\nSELECT 2";
    let directives = InlineDirectives::parse(sql);
    assert!(directives.is_suppressed("E0001", 2));
    assert!(directives.is_suppressed("E0002", 2));
    assert!(!directives.is_suppressed("E0001", 3));
    assert!(!directives.is_suppressed("E0002", 3));
}

#[test]
fn codes_upper_cased_beyond_ascii() {
    let directives = InlineDirectives::parse("SELECT 1 -- sqlsift:disable é1");
    assert!(directives.is_suppressed("É1", 1));
    assert!(!directives.is_suppressed("é1", 1));
}
