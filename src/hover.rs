//! Hover text for an identifier: a table's columns, a view's columns, or
//! every table column of that name.
use vstd::prelude::*;
use vstd::string::StringExecFns;
use crate::catalog::{
    column_index, schema_or, table_index, view_index, Catalog, CatalogView, Column, QualifiedName,
    Table,
};
use crate::diagnostic::views;
use crate::directives::lines_of;
use crate::text::{chars_of, first_index, lemma_split_by_push, names_eq};
use vstd::string::StrSliceExecFns;
use crate::types::shown_name;

verus! {

/// `parts` joined with `sep` between each two.
pub open spec fn joined(parts: Seq<Seq<char>>, sep: Seq<char>) -> Seq<char>
    decreases parts.len(),
{
    if parts.len() == 0 {
        Seq::empty()
    } else if parts.len() == 1 {
        parts[0]
    } else {
        joined(parts.drop_last(), sep) + sep + parts.last()
    }
}

pub open spec fn nullable_word(nullable: bool) -> Seq<char> {
    if nullable {
        "NULL"@
    } else {
        "NOT NULL"@
    }
}

/// One row of a table's column listing.
pub open spec fn column_row(c: Column) -> Seq<char> {
    "| "@ + c.name@ + " | "@ + shown_name(c.data_type) + " | "@ + nullable_word(c.nullable)
        + " |\n"@
}

pub open spec fn column_rows(cols: Seq<Column>) -> Seq<char>
    decreases cols.len(),
{
    if cols.len() == 0 {
        Seq::empty()
    } else {
        column_rows(cols.drop_last()) + column_row(cols.last())
    }
}

/// A table's name and its columns as a markdown table.
pub open spec fn table_text(t: Table) -> Seq<char> {
    "**"@ + t.name.name@ + "** (table)\n\n"@ + "| Column | Type | Nullable |\n"@
        + "|--------|------|----------|\n"@ + column_rows(t.columns@)
}

/// A view's name, kind and columns.
pub open spec fn view_text(v: CatalogView) -> Seq<char> {
    "**"@ + v.name.name@ + "** ("@ + (if v.materialized {
        "materialized view"@
    } else {
        "view"@
    }) + ")\n\nColumns: "@ + joined(views(v.columns@), ", "@)
}

/// One column of a table, with its type and nullability.
pub open spec fn column_text(c: Column, t: Table) -> Seq<char> {
    "**"@ + c.name@ + "** — "@ + shown_name(c.data_type) + " ("@ + (if c.nullable {
        "nullable"@
    } else {
        "not null"@
    }) + ")\n\nTable: "@ + t.name.name@
}

/// The entries for column `w` in each of `tables` that has one, in order.
pub open spec fn column_texts(tables: Seq<Table>, w: Seq<char>) -> Seq<Seq<char>>
    decreases tables.len(),
{
    if tables.len() == 0 {
        Seq::empty()
    } else {
        let t = tables.last();
        let rest = column_texts(tables.drop_last(), w);
        if column_index(t.columns@, w) >= 0 {
            rest.push(column_text(t.columns@[column_index(t.columns@, w)], t))
        } else {
            rest
        }
    }
}

/// Whether a table's name is `w` in the default schema.
pub open spec fn bare_table(d: Seq<char>, w: Seq<char>) -> spec_fn(Table) -> bool {
    |t: Table| names_eq(t.name.name@, w) && names_eq(schema_or(t.name, d), d)
}

/// Whether a view's name is `w` in the default schema.
pub open spec fn bare_view(d: Seq<char>, w: Seq<char>) -> spec_fn(CatalogView) -> bool {
    |v: CatalogView| names_eq(v.name.name@, w) && names_eq(schema_or(v.name, d), d)
}

/// The hover text for identifier `w`: the table it names, else the view it
/// names, else every table column it names; none if it names nothing.
pub open spec fn hover_text(c: Catalog, w: Seq<char>) -> Option<Seq<char>> {
    let ti = first_index(c.tables@, bare_table(c.default_schema@, w));
    let vi = first_index(c.views@, bare_view(c.default_schema@, w));
    if ti >= 0 {
        Some(table_text(c.tables@[ti]))
    } else if vi >= 0 {
        Some(view_text(c.views@[vi]))
    } else {
        let e = column_texts(c.tables@, w);
        if e.len() == 0 {
            None
        } else {
            Some(joined(e, "\n\n---\n\n"@))
        }
    }
}

fn table_markdown(t: &Table) -> (r: String)
    ensures
        r@ == table_text(*t),
{
    let mut md = String::from_str("**");
    md.append(t.name.name.as_str());
    md.append("** (table)\n\n");
    md.append("| Column | Type | Nullable |\n");
    md.append("|--------|------|----------|\n");
    let ghost head = md@;
    let mut i: usize = 0;
    proof {
        assert(t.columns@.take(0) =~= Seq::<Column>::empty());
        assert(md@ =~= head + column_rows(t.columns@.take(0)));
    }
    while i < t.columns.len()
        invariant
            i <= t.columns.len(),
            md@ == head + column_rows(t.columns@.take(i as int)),
        decreases t.columns.len() - i,
    {
        let c = &t.columns[i];
        md.append("| ");
        md.append(c.name.as_str());
        md.append(" | ");
        let tn = c.data_type.display_name();
        md.append(tn.as_str());
        md.append(" | ");
        md.append(if c.nullable { "NULL" } else { "NOT NULL" });
        md.append(" |\n");
        proof {
            assert(t.columns@.take(i + 1).drop_last() =~= t.columns@.take(i as int));
            assert(md@ =~= head + column_rows(t.columns@.take(i + 1)));
        }
        i = i + 1;
    }
    proof {
        assert(t.columns@.take(i as int) =~= t.columns@);
        assert(md@ =~= table_text(*t));
    }
    md
}

/// `parts` joined with `sep`.
fn join_strings(parts: &Vec<String>, sep: &str) -> (r: String)
    ensures
        r@ == joined(views(parts@), sep@),
{
    let mut out = String::new();
    let mut i: usize = 0;
    proof {
        assert(views(parts@.take(0)) =~= Seq::<Seq<char>>::empty());
    }
    while i < parts.len()
        invariant
            i <= parts.len(),
            out@ == joined(views(parts@.take(i as int)), sep@),
        decreases parts.len() - i,
    {
        proof {
            assert(views(parts@.take(i + 1)).drop_last() =~= views(parts@.take(i as int)));
            assert(views(parts@.take(i + 1)).last() == parts@[i as int]@);
        }
        if i > 0 {
            out.append(sep);
        }
        out.append(parts[i].as_str());
        proof {
            if i == 0 {
                assert(out@ =~= parts@[0]@);
            }
        }
        i = i + 1;
    }
    proof {
        assert(parts@.take(i as int) =~= parts@);
    }
    out
}

fn view_markdown(v: &CatalogView) -> (r: String)
    ensures
        r@ == view_text(*v),
{
    let mut md = String::from_str("**");
    md.append(v.name.name.as_str());
    md.append("** (");
    md.append(if v.materialized { "materialized view" } else { "view" });
    md.append(")\n\nColumns: ");
    let cols = join_strings(&v.columns, ", ");
    md.append(cols.as_str());
    md
}

fn column_markdown(c: &Column, t: &Table) -> (r: String)
    ensures
        r@ == column_text(*c, *t),
{
    let mut md = String::from_str("**");
    md.append(c.name.as_str());
    md.append("** — ");
    let tn = c.data_type.display_name();
    md.append(tn.as_str());
    md.append(" (");
    md.append(if c.nullable { "nullable" } else { "not null" });
    md.append(")\n\nTable: ");
    md.append(t.name.name.as_str());
    md
}

/// Hover information for `word`: a table, a view, or the columns of that
/// name across all tables, as markdown.
pub fn hover_info(catalog: &Catalog, word: &str) -> (r: Option<String>)
    ensures
        r is None <==> hover_text(*catalog, word@) is None,
        r is Some ==> hover_text(*catalog, word@) == Some(r->0@),
{
    let name = QualifiedName::new(word);
    let ghost d = catalog.default_schema@;
    proof {
        assert(crate::catalog::table_named(d, name) =~= bare_table(d, word@));
        assert(crate::catalog::view_named(d, name) =~= bare_view(d, word@));
    }
    if let Some(table) = catalog.get_table(&name) {
        return Some(table_markdown(table));
    }
    if let Some(view) = catalog.get_view(&name) {
        return Some(view_markdown(view));
    }
    let mut entries: Vec<String> = Vec::new();
    let mut i: usize = 0;
    proof {
        assert(catalog.tables@.take(0) =~= Seq::<Table>::empty());
        assert(views(entries@) =~= Seq::<Seq<char>>::empty());
    }
    while i < catalog.tables.len()
        invariant
            i <= catalog.tables.len(),
            views(entries@) == column_texts(catalog.tables@.take(i as int), word@),
        decreases catalog.tables.len() - i,
    {
        let t = &catalog.tables[i];
        proof {
            assert(catalog.tables@.take(i + 1).drop_last() =~= catalog.tables@.take(i as int));
        }
        if let Some(c) = t.get_column(word) {
            let e = column_markdown(c, t);
            entries.push(e);
            proof {
                assert(views(entries@) =~= column_texts(catalog.tables@.take(i + 1), word@));
            }
        }
        i = i + 1;
    }
    proof {
        assert(catalog.tables@.take(i as int) =~= catalog.tables@);
    }
    if entries.len() == 0 {
        None
    } else {
        Some(join_strings(&entries, "\n\n---\n\n"))
    }
}

/// Characters of SQL identifiers: ASCII letters, digits and `_`.
pub open spec fn is_ident_char(c: char) -> bool {
    ('a' <= c && c <= 'z') || ('A' <= c && c <= 'Z') || ('0' <= c && c <= '9') || c == '_'
}

pub fn ident_char(c: char) -> (r: bool)
    ensures
        r == is_ident_char(c),
{
    ('a' <= c && c <= 'z') || ('A' <= c && c <= 'Z') || ('0' <= c && c <= '9') || c == '_'
}

/// Where the identifier through position `k` of `l` starts.
pub open spec fn word_start(l: Seq<char>, k: int) -> int
    decreases k,
{
    if k > 0 && k <= l.len() && is_ident_char(l[k - 1]) {
        word_start(l, k - 1)
    } else {
        k
    }
}

/// Where the identifier through position `k` of `l` ends.
pub open spec fn word_end(l: Seq<char>, k: int) -> int
    decreases l.len() - k,
{
    if 0 <= k < l.len() && is_ident_char(l[k]) {
        word_end(l, k + 1)
    } else {
        k
    }
}

/// The identifier of line `l` that covers position `k`, if any.
pub open spec fn word_around(l: Seq<char>, k: int) -> Option<Seq<char>> {
    if 0 <= k < l.len() && is_ident_char(l[k]) {
        Some(l.subrange(word_start(l, k), word_end(l, k)))
    } else {
        None
    }
}

/// How many bytes the UTF-8 encoding of `c` takes.
pub open spec fn utf8_len(c: char) -> nat {
    if (c as u32) < 0x80 {
        1
    } else if (c as u32) < 0x800 {
        2
    } else if (c as u32) < 0x10000 {
        3
    } else {
        4
    }
}

/// The position of the character of `l` whose UTF-8 encoding starts at
/// byte `b` of the line's encoding, if one does.
pub open spec fn char_at_byte(l: Seq<char>, b: int) -> Option<int>
    decreases l.len(),
{
    if l.len() == 0 || b < 0 {
        None
    } else if b == 0 {
        Some(0)
    } else {
        match char_at_byte(l.drop_first(), b - utf8_len(l[0])) {
            Some(i) => Some(i + 1),
            None => None,
        }
    }
}

/// The identifier at (0-indexed) `line` and byte `character` of `text`:
/// the byte there must start an identifier character (identifier
/// characters are ASCII, one byte each).
pub open spec fn word_at(text: Seq<char>, line: int, character: int) -> Option<Seq<char>> {
    if 0 <= line < lines_of(text).len() {
        match char_at_byte(lines_of(text)[line], character) {
            Some(i) => word_around(lines_of(text)[line], i),
            None => None,
        }
    } else {
        None
    }
}

fn char_utf8_len(c: char) -> (r: usize)
    ensures
        r == utf8_len(c),
{
    if (c as u32) < 0x80 {
        1
    } else if (c as u32) < 0x800 {
        2
    } else if (c as u32) < 0x10000 {
        3
    } else {
        4
    }
}

/// The position within the line from `fs` to `fe` of `cs` of the character
/// that starts at byte `b` of the line.
fn char_index_at_byte(cs: &Vec<char>, fs: usize, fe: usize, b: usize) -> (r: Option<usize>)
    requires
        fs <= fe <= cs.len(),
    ensures
        r is None <==> char_at_byte(cs@.subrange(fs as int, fe as int), b as int) is None,
        r is Some ==> r->0 as int == char_at_byte(cs@.subrange(fs as int, fe as int), b as int)->0
            && r->0 < fe - fs,
{
    let ghost l = cs@.subrange(fs as int, fe as int);
    let mut i: usize = 0;
    let mut rem: usize = b;
    proof {
        assert(l.skip(0) =~= l);
    }
    while i < fe - fs && rem > 0
        invariant
            fs <= fe <= cs.len(),
            l == cs@.subrange(fs as int, fe as int),
            i <= fe - fs,
            char_at_byte(l, b as int) == match char_at_byte(l.skip(i as int), rem as int) {
                Some(k) => Some(k + i),
                None => None,
            },
        decreases fe - fs - i,
    {
        let k = char_utf8_len(cs[fs + i]);
        proof {
            assert(l.skip(i as int)[0] == cs@[fs + i]);
            assert(l.skip(i as int).drop_first() =~= l.skip(i + 1));
        }
        if rem < k {
            proof {
                assert(char_at_byte(l.skip(i + 1), rem - k) is None);
            }
            return None;
        }
        rem = rem - k;
        i = i + 1;
    }
    if rem == 0 && i < fe - fs {
        Some(i)
    } else {
        proof {
            if i == fe - fs {
                assert(l.skip(i as int).len() == 0);
            }
        }
        None
    }
}

proof fn lemma_word_start_bounds(l: Seq<char>, k: int)
    requires
        0 <= k <= l.len(),
    ensures
        0 <= word_start(l, k) <= k,
    decreases k,
{
    if k > 0 && is_ident_char(l[k - 1]) {
        lemma_word_start_bounds(l, k - 1);
    }
}

proof fn lemma_word_end_bounds(l: Seq<char>, k: int)
    requires
        0 <= k <= l.len(),
    ensures
        k <= word_end(l, k) <= l.len(),
    decreases l.len() - k,
{
    if k < l.len() && is_ident_char(l[k]) {
        lemma_word_end_bounds(l, k + 1);
    }
}

/// A range of character positions.
struct Bounds {
    start: usize,
    end: usize,
}

/// Where line `line` (0-indexed) of `cs` starts and ends, if it exists.
fn line_bounds(cs: &Vec<char>, line: usize) -> (r: Option<Bounds>)
    ensures
        r is None <==> line >= lines_of(cs@).len(),
        r is Some ==> r->0.start <= r->0.end <= cs.len() && cs@.subrange(
            r->0.start as int,
            r->0.end as int,
        ) == lines_of(cs@)[line as int],
{
    let mut ln: usize = 0;
    let mut start: usize = 0;
    let mut fs: usize = 0;
    let mut fe: usize = 0;
    let mut i: usize = 0;
    proof {
        assert(cs@.take(0) =~= Seq::<char>::empty());
        assert(cs@.subrange(0, 0) =~= Seq::<char>::empty());
    }
    while i < cs.len()
        invariant
            i <= cs.len(),
            ln <= i,
            start <= i,
            lines_of(cs@.take(i as int)).len() == ln + 1,
            cs@.subrange(start as int, i as int) == lines_of(cs@.take(i as int))[ln as int],
            ln > line ==> fs <= fe <= cs.len() && cs@.subrange(fs as int, fe as int) == lines_of(
                cs@.take(i as int),
            )[line as int],
        decreases cs.len() - i,
    {
        let ghost ls = lines_of(cs@.take(i as int));
        let c = cs[i];
        proof {
            assert(cs@.take(i + 1) =~= cs@.take(i as int).push(c));
            lemma_split_by_push(cs@.take(i as int), c, '\n', '\n');
        }
        if c == '\n' {
            if ln == line {
                fs = start;
                fe = i;
            }
            ln = ln + 1;
            start = i + 1;
            proof {
                assert(cs@.subrange(start as int, i + 1) =~= Seq::<char>::empty());
            }
        } else {
            proof {
                assert(cs@.subrange(start as int, i + 1) =~= ls[ln as int].push(c));
            }
        }
        i = i + 1;
    }
    proof {
        assert(cs@.take(i as int) =~= cs@);
    }
    if ln < line {
        None
    } else if ln == line {
        Some(Bounds { start, end: cs.len() })
    } else {
        Some(Bounds { start: fs, end: fe })
    }
}

/// Where the identifier through position `k` ends and starts, within the
/// line from `fs` to `fe` of `cs`.
fn word_bounds(cs: &Vec<char>, fs: usize, fe: usize, k: usize) -> (r: (usize, usize))
    requires
        fs <= k < fe <= cs.len(),
    ensures
        fs <= r.0 <= k,
        k <= r.1 <= fe,
        r.0 - fs == word_start(cs@.subrange(fs as int, fe as int), k - fs),
        r.1 - fs == word_end(cs@.subrange(fs as int, fe as int), k - fs),
{
    let ghost l = cs@.subrange(fs as int, fe as int);
    let mut a: usize = k;
    while a > fs && ident_char(cs[a - 1])
        invariant
            fs <= a <= k,
            k < fe <= cs.len(),
            l == cs@.subrange(fs as int, fe as int),
            word_start(l, k - fs) == word_start(l, a - fs),
        decreases a,
    {
        a = a - 1;
    }
    let mut b: usize = k;
    while b < fe && ident_char(cs[b])
        invariant
            k <= b <= fe,
            fe <= cs.len(),
            fs <= k,
            l == cs@.subrange(fs as int, fe as int),
            word_end(l, k - fs) == word_end(l, b - fs),
        decreases fe - b,
    {
        b = b + 1;
    }
    (a, b)
}

/// Extract the SQL identifier at the given (0-indexed) line and byte offset
/// within the line.
pub fn word_at_position(text: &str, line: usize, character: usize) -> (r: Option<String>)
    ensures
        r is None <==> word_at(text@, line as int, character as int) is None,
        r is Some ==> word_at(text@, line as int, character as int) == Some(r->0@),
{
    let cs = chars_of(text);
    let (fs, fe) = match line_bounds(&cs, line) {
        Some(b) => (b.start, b.end),
        None => return None,
    };
    let ghost l = lines_of(text@)[line as int];
    let i = match char_index_at_byte(&cs, fs, fe, character) {
        Some(i) => i,
        None => return None,
    };
    if !ident_char(cs[fs + i]) {
        return None;
    }
    let (a, b) = word_bounds(&cs, fs, fe, fs + i);
    proof {
        assert(l.subrange(a - fs, b - fs) =~= cs@.subrange(a as int, b as int));
    }
    let w = text.substring_char(a, b);
    Some(String::from_str(w))
}

} // verus!
