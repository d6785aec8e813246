//! Whether SQL text parses, by the parser of its dialect.
use vstd::prelude::*;
use sqlparser::dialect::{MySqlDialect, PostgreSqlDialect, SQLiteDialect};
use sqlparser::parser::Parser;
use crate::diagnostic::{Diagnostic, DiagnosticKind, Severity};
use crate::dialect::SqlDialect;

verus! {

/// Whether sqlparser reads `sql` as a sequence of statements of `dialect`.
pub uninterp spec fn sql_parses(dialect: SqlDialect, sql: Seq<char>) -> bool;

/// The text of the error sqlparser gives for `sql` under `dialect` when it
/// does not parse.
pub uninterp spec fn parse_error_text(dialect: SqlDialect, sql: Seq<char>) -> Seq<char>;

/// Relies on `sqlparser::parser::Parser::parse_sql` (sqlparser 0.63) with
/// the dialect's parser: `Ok` exactly when the text parses, else the
/// parser's error as text. Deep nesting ends in its recursion-limit error.
#[verifier::external_body]
fn parse_with(dialect: SqlDialect, sql: &str) -> (r: Result<(), String>)
    ensures
        r is Ok <==> sql_parses(dialect, sql@),
        r is Err ==> r->Err_0@ == parse_error_text(dialect, sql@),
{
    let parsed = match dialect {
        SqlDialect::PostgreSQL => Parser::parse_sql(&PostgreSqlDialect {}, sql),
        SqlDialect::MySQL => Parser::parse_sql(&MySqlDialect {}, sql),
        SqlDialect::SQLite => Parser::parse_sql(&SQLiteDialect {}, sql),
    };
    parsed.map(|_| ()).map_err(|e| e.to_string())
}

/// The diagnostic for a parse outcome: none on success, else one parse
/// error carrying the parser's message.
pub fn parse_outcome_diagnostic(outcome: &Result<(), String>) -> (r: Option<Diagnostic>)
    ensures
        r is None <==> outcome is Ok,
        r is Some ==> r->0.kind == DiagnosticKind::ParseError && r->0.severity == Severity::Error
            && r->0.span is None && r->0.help is None && r->0.message@ == outcome->Err_0@,
{
    match outcome {
        Ok(()) => None,
        Err(message) => Some(Diagnostic::error(DiagnosticKind::ParseError, message.as_str())),
    }
}

/// The parse error of a batch of SQL, if it does not parse: a single
/// error-severity diagnostic carrying the parser's message.
pub fn syntax_error(dialect: SqlDialect, sql: &str) -> (r: Option<Diagnostic>)
    ensures
        r is None <==> sql_parses(dialect, sql@),
        r is Some ==> r->0.kind == DiagnosticKind::ParseError && r->0.severity == Severity::Error
            && r->0.span is None && r->0.help is None && r->0.message@ == parse_error_text(dialect, sql@),
{
    let outcome = parse_with(dialect, sql);
    parse_outcome_diagnostic(&outcome)
}

} // verus!
