//! Static analysis of SQL against a schema.
//!
//! - `dialect`: the supported dialects and their default schemas.
//! - `diagnostic`: diagnostic kinds with stable codes, spans, messages.
//! - `directives`: `-- sqlsift:disable` comment directives and filtering.
//! - `types`: the semantic type lattice, literal typing, compatibility.
//! - `catalog`, `builder`: the schema catalog and the DDL that builds it.
//! - `scope`: name resolution over a stack of scope frames.
//! - `checks`: `INSERT` and `UPDATE` checks against a table.
//! - `suggest`: nearest-name suggestions.
//! - `parse`: whether text parses, by the dialect's SQL parser.
//! - `hover`, `paths`, `config`: what an editor front-end needs.
pub mod analyzer;
pub mod builder;
pub mod catalog;
pub mod checks;
pub mod config;
pub mod diagnostic;
pub mod dialect;
pub mod directives;
pub mod hover;
pub mod parse;
pub mod paths;
pub mod scope;
pub mod suggest;
pub mod text;
pub mod types;

pub use diagnostic::{Diagnostic, DiagnosticKind, Severity, Span};
pub use dialect::SqlDialect;
