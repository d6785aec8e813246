//! Workspace configuration: schema file patterns, dialect and disabled
//! codes.
use vstd::prelude::*;
use crate::dialect::{dialect_named, SqlDialect};

verus! {

/// What a workspace's configuration file sets.
#[derive(Debug, Clone, Default)]
pub struct Config {
    /// Glob patterns of schema files, relative to the workspace root.
    pub schema: Vec<String>,
    pub files: Vec<String>,
    /// The dialect's name, if set.
    pub dialect: Option<String>,
    pub format: Option<String>,
    /// Codes of diagnostics never to report; unknown codes match nothing.
    pub disable: Vec<String>,
    /// A directory whose `.sql` files are all schema files.
    pub schema_dir: Option<String>,
}

/// The dialect in force: the configured one if it names a dialect, else
/// `current`.
pub open spec fn dialect_in_force(dialect: Option<String>, current: SqlDialect) -> SqlDialect {
    match dialect {
        Some(n) => match dialect_named(n@) {
            Some(d) => d,
            None => current,
        },
        None => current,
    }
}

impl Config {
    /// The dialect to use: the configured one when it is a known name,
    /// otherwise `current` is kept.
    pub fn dialect_or(&self, current: SqlDialect) -> (r: SqlDialect)
        ensures
            r == dialect_in_force(self.dialect, current),
    {
        match &self.dialect {
            Some(n) => match SqlDialect::from_str(n.as_str()) {
                Ok(d) => d,
                Err(_) => current,
            },
            None => current,
        }
    }
}

} // verus!
