use sqlsift::parse::{parse_outcome_diagnostic, syntax_error};
use sqlsift::{DiagnosticKind, SqlDialect};

#[test]
fn valid_sql_has_no_parse_error() {
    assert!(syntax_error(SqlDialect::PostgreSQL, "SELECT id, name FROM users WHERE id = 1").is_none());
    assert!(syntax_error(SqlDialect::MySQL, "SELECT id FROM users LIMIT 1").is_none());
    assert!(syntax_error(SqlDialect::SQLite, "DELETE FROM users WHERE id = 1").is_none());
    assert!(syntax_error(SqlDialect::PostgreSQL, "").is_none());
}

#[test]
fn broken_sql_gives_one_parse_error() {
    let d = syntax_error(SqlDialect::PostgreSQL, "SELECT * FROM").unwrap();
    assert_eq!(d.kind, DiagnosticKind::ParseError);
    assert_eq!(d.code(), "E0006");
    assert!(d.message.starts_with("sql parser error"));
}

#[test]
fn deep_nesting_is_reported_not_fatal() {
    let sql = format!("SELECT {}1{}", "(".repeat(5000), ")".repeat(5000));
    let d = syntax_error(SqlDialect::PostgreSQL, &sql).unwrap();
    assert_eq!(d.code(), "E0006");
}

#[test]
fn parse_outcome_maps_to_diagnostic() {
    assert!(parse_outcome_diagnostic(&Ok(())).is_none());
    let d = parse_outcome_diagnostic(&Err("sql parser error: boom".to_string())).unwrap();
    assert_eq!(d.kind, DiagnosticKind::ParseError);
    assert_eq!(d.message, "sql parser error: boom");
}
