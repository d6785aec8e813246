//! SQL dialect profiles.
use vstd::prelude::*;
use vstd::string::StringExecFns;
use crate::text::{chars_of, char_lower, lower};

verus! {

/// Supported SQL dialects.
#[derive(Debug, Clone, Copy, PartialEq, Eq, Structural)]
pub enum SqlDialect {
    PostgreSQL,
    MySQL,
    SQLite,
}

/// The schema that unqualified names fall back to under dialect `d`.
pub open spec fn default_schema_of(d: SqlDialect) -> Seq<char> {
    match d {
        SqlDialect::PostgreSQL => "public"@,
        SqlDialect::MySQL | SqlDialect::SQLite => ""@,
    }
}

/// The dialect that a configuration name denotes, compared without regard
/// to ASCII case.
pub open spec fn dialect_named(name: Seq<char>) -> Option<SqlDialect> {
    let n = lower(name);
    if n == "postgresql"@ || n == "postgres"@ || n == "pg"@ {
        Some(SqlDialect::PostgreSQL)
    } else if n == "mysql"@ || n == "mysql8"@ {
        Some(SqlDialect::MySQL)
    } else if n == "sqlite"@ || n == "sqlite3"@ {
        Some(SqlDialect::SQLite)
    } else {
        None
    }
}

/// The canonical lower-case name of a dialect.
pub open spec fn name_of(d: SqlDialect) -> Seq<char> {
    match d {
        SqlDialect::PostgreSQL => "postgresql"@,
        SqlDialect::MySQL => "mysql"@,
        SqlDialect::SQLite => "sqlite"@,
    }
}

/// The message given for a name that denotes no dialect.
pub open spec fn unknown_dialect_message(name: Seq<char>) -> Seq<char> {
    "Unknown dialect: '"@ + name + "'. Supported dialects: postgresql, mysql, sqlite."@
}

fn seq_eq(a: &Vec<char>, b: &str) -> (r: bool)
    ensures
        r == (a@ == b@),
{
    let bv = chars_of(b);
    if a.len() != bv.len() {
        return false;
    }
    let mut i: usize = 0;
    while i < a.len()
        invariant
            a.len() == bv.len(),
            bv@ == b@,
            i <= a.len(),
            forall|j: int| 0 <= j < i ==> a@[j] == bv@[j],
        decreases a.len() - i,
    {
        if a[i] != bv[i] {
            return false;
        }
        i = i + 1;
    }
    assert(a@ =~= bv@);
    true
}

impl Default for SqlDialect {
    fn default() -> (r: SqlDialect)
        ensures
            r == SqlDialect::PostgreSQL,
    {
        SqlDialect::PostgreSQL
    }
}

impl SqlDialect {
    /// Parse a dialect name such as `postgres`, `MySQL` or `sqlite3`.
    pub fn from_str(s: &str) -> (r: Result<SqlDialect, String>)
        ensures
            dialect_named(s@) is Some ==> r == Ok::<SqlDialect, String>(dialect_named(s@)->0),
            dialect_named(s@) is None ==> (r matches Err(m) && m@ == unknown_dialect_message(s@)),
    {
        let cs = chars_of(s);
        let mut n: Vec<char> = Vec::new();
        let mut i: usize = 0;
        while i < cs.len()
            invariant
                i <= cs.len(),
                cs@ == s@,
                n@ == lower(cs@.take(i as int)),
            decreases cs.len() - i,
        {
            n.push(char_lower(cs[i]));
            i = i + 1;
            assert(n@ =~= lower(cs@.take(i as int)));
        }
        assert(cs@.take(cs.len() as int) =~= cs@);
        if seq_eq(&n, "postgresql") || seq_eq(&n, "postgres") || seq_eq(&n, "pg") {
            Ok(SqlDialect::PostgreSQL)
        } else if seq_eq(&n, "mysql") || seq_eq(&n, "mysql8") {
            Ok(SqlDialect::MySQL)
        } else if seq_eq(&n, "sqlite") || seq_eq(&n, "sqlite3") {
            Ok(SqlDialect::SQLite)
        } else {
            let mut m = String::from_str("Unknown dialect: '");
            m.append(s);
            m.append("'. Supported dialects: postgresql, mysql, sqlite.");
            Err(m)
        }
    }

    /// The canonical lower-case name of this dialect.
    pub fn name(&self) -> (r: &'static str)
        ensures
            r@ == name_of(*self),
    {
        match self {
            SqlDialect::PostgreSQL => "postgresql",
            SqlDialect::MySQL => "mysql",
            SqlDialect::SQLite => "sqlite",
        }
    }

    /// Default schema name for this dialect.
    pub fn default_schema(&self) -> (r: &'static str)
        ensures
            r@ == default_schema_of(*self),
    {
        match self {
            SqlDialect::PostgreSQL => "public",
            SqlDialect::MySQL | SqlDialect::SQLite => "",
        }
    }
}

} // verus!
