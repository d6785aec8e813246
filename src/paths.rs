//! The glob patterns that locate schema files, computed from the workspace
//! root and the configured patterns (Unix path syntax).
use vstd::prelude::*;
use vstd::string::StringExecFns;
use crate::text::chars_of;

verus! {

/// Whether `p` is an absolute path.
pub open spec fn is_absolute(p: Seq<char>) -> bool {
    p.len() > 0 && p[0] == '/'
}

/// `p` resolved against `root`: itself if absolute, else appended to `root`
/// with one separator.
pub open spec fn resolved(root: Seq<char>, p: Seq<char>) -> Seq<char> {
    if is_absolute(p) {
        p
    } else if root.len() > 0 && root.last() == '/' {
        root + p
    } else {
        root + "/"@ + p
    }
}

/// The pattern that finds every `.sql` file below directory `dir`.
pub open spec fn sql_files_below(root: Seq<char>, dir: Seq<char>) -> Seq<char> {
    resolved(root, dir) + "/**/*.sql"@
}

/// `pattern` resolved against the workspace `root`.
pub fn resolve_pattern(root: &str, pattern: &str) -> (r: String)
    ensures
        r@ == resolved(root@, pattern@),
{
    let p = chars_of(pattern);
    if p.len() > 0 && p[0] == '/' {
        return String::from_str(pattern);
    }
    let rc = chars_of(root);
    let mut out = String::from_str(root);
    if !(rc.len() > 0 && rc[rc.len() - 1] == '/') {
        out.append("/");
    }
    out.append(pattern);
    out
}

/// The pattern for the schema files below the configured directory `dir`.
pub fn schema_dir_pattern(root: &str, dir: &str) -> (r: String)
    ensures
        r@ == sql_files_below(root@, dir@),
{
    let mut out = resolve_pattern(root, dir);
    out.append("/**/*.sql");
    out
}

} // verus!
