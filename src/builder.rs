//! The catalog builder: applies DDL statements, given as the library's own
//! values, to a catalog.
use vstd::prelude::*;
use crate::catalog::{
    column_index, column_renamed, enum_index, table_named, is_nullable, named, only_columns_changed,
    only_table_changed, output_name, with_column, without_column, table_index, view_index, Catalog, CatalogView,
    CheckConstraint, Column, ColumnOptions, EnumType, ForeignKey, ProjectionItem, QualifiedName,
    Table, infer_view_columns,
};
use crate::diagnostic::{Diagnostic, DiagnosticKind};
use crate::dialect::SqlDialect;
use crate::text::{
    char_is_space, chars_of, first_index, is_space, lemma_first_index_bounds, lemma_first_index_found,
    lemma_first_index_none, lemma_trim_end_take, lemma_trim_start_skip, names_eq, slice_of, trim,
    trim_end, upper, uppercased, vec_eq,
};
use vstd::string::StrSliceExecFns;
use crate::types::{keyword_type, type_for_keyword, SqlType};

verus! {

/// Relies on `str::to_ascii_uppercase` (std): each ASCII letter in upper
/// case, every other character unchanged.
#[verifier::external_body]
fn ascii_uppercase(s: &str) -> (r: String)
    ensures
        r@ == upper(s@),
{
    s.to_ascii_uppercase()
}

/// A column as a `CREATE TABLE` or `ADD COLUMN` defines it.
#[derive(Debug)]
pub struct ColumnSpec {
    pub name: String,
    /// The type's keyword or name as written, without parameters.
    pub type_keyword: String,
    pub options: ColumnOptions,
    pub default_expr: Option<String>,
    /// `CHECK` constraints written on the column.
    pub checks: Vec<CheckConstraint>,
}

/// A DDL statement.
#[derive(Debug)]
pub enum DdlStatement {
    CreateTable {
        name: QualifiedName,
        columns: Vec<ColumnSpec>,
        checks: Vec<CheckConstraint>,
        foreign_keys: Vec<ForeignKey>,
    },
    /// `columns` is the declared column list, `projection` the body's output
    /// items (used when no list is declared).
    CreateView {
        name: QualifiedName,
        materialized: bool,
        columns: Vec<String>,
        projection: Vec<ProjectionItem>,
    },
    CreateEnum { name: String, labels: Vec<String> },
    AddColumn { table: QualifiedName, column: ColumnSpec },
    DropColumn { table: QualifiedName, column: String },
    RenameColumn { table: QualifiedName, from: String, to: String },
    RenameTable { table: QualifiedName, to: String },
    AddCheck { table: QualifiedName, check: CheckConstraint },
    AddForeignKey { table: QualifiedName, key: ForeignKey },
}

/// Type keywords that declare an auto-numbered integer column.
pub open spec fn is_serial_keyword(k: Seq<char>) -> bool {
    let u = upper(k);
    u == "SERIAL"@ || u == "BIGSERIAL"@ || u == "SMALLSERIAL"@
}

/// The type of a column declared with `keyword`: a built-in type of the
/// dialect, else an enum type of the catalog of that name, else a custom
/// type named by the keyword in upper case.
pub open spec fn declared_type_ok(c: Catalog, d: SqlDialect, keyword: Seq<char>, t: SqlType) -> bool {
    if keyword_type(d, keyword) is Some {
        t == keyword_type(d, keyword)->0
    } else if enum_index(c, keyword) >= 0 {
        t matches SqlType::Enum(n) && n@ == keyword
    } else {
        t matches SqlType::Custom(n) && n@ == upper(keyword)
    }
}

/// The type of a column declared with type `keyword`.
pub fn declared_type(catalog: &Catalog, dialect: SqlDialect, keyword: &str) -> (r: SqlType)
    ensures
        declared_type_ok(*catalog, dialect, keyword@, r),
{
    match type_for_keyword(dialect, keyword) {
        Some(t) => t,
        None => {
            if catalog.enum_exists(keyword) {
                SqlType::Enum(String::from_str(keyword))
            } else {
                SqlType::Custom(ascii_uppercase(keyword))
            }
        },
    }
}

fn is_serial(keyword: &str) -> (r: bool)
    ensures
        r == is_serial_keyword(keyword@),
{
    let cs = uppercased(&chars_of(keyword));
    vec_eq(&cs, &chars_of("SERIAL")) || vec_eq(&cs, &chars_of("BIGSERIAL")) || vec_eq(
        &cs,
        &chars_of("SMALLSERIAL"),
    )
}

/// Whether `c` is the column that `spec` defines in catalog `cat`.
pub open spec fn defines(cat: Catalog, d: SqlDialect, spec: ColumnSpec, c: Column) -> bool {
    let o = ColumnOptions { serial: spec.options.serial || is_serial_keyword(spec.type_keyword@), ..spec.options };
    &&& c.name@ == spec.name@
    &&& declared_type_ok(cat, d, spec.type_keyword@, c.data_type)
    &&& c.nullable == is_nullable(o)
    &&& c.is_primary_key == spec.options.primary_key
    &&& c.identity == spec.options.identity
    &&& c.default_expr == spec.default_expr
}

/// The column that `spec` defines, and its `CHECK` constraints.
pub fn column_of(catalog: &Catalog, dialect: SqlDialect, spec: ColumnSpec) -> (r: (Column, Vec<CheckConstraint>))
    ensures
        defines(*catalog, dialect, spec, r.0),
        r.1@ == spec.checks@,
{
    let t = declared_type(catalog, dialect, spec.type_keyword.as_str());
    let serial = spec.options.serial || is_serial(spec.type_keyword.as_str());
    let options = ColumnOptions { serial, ..spec.options };
    let c = Column::from_definition(spec.name.as_str(), t, options, spec.default_expr);
    (c, spec.checks)
}

/// The `CHECK` constraints written on the columns of `specs`, in order.
pub open spec fn column_checks(specs: Seq<ColumnSpec>) -> Seq<CheckConstraint>
    decreases specs.len(),
{
    if specs.len() == 0 {
        Seq::empty()
    } else {
        column_checks(specs.drop_last()) + specs.last().checks@
    }
}

/// What `CREATE TABLE name (columns, checks, foreign keys)` adds: a table of
/// that name holding a column for each definition (a later one of the same
/// name replacing an earlier), with the column and table checks and the
/// foreign keys.
pub open spec fn created_table_ok(
    cat: Catalog,
    d: SqlDialect,
    name: QualifiedName,
    specs: Seq<ColumnSpec>,
    checks: Seq<CheckConstraint>,
    fks: Seq<ForeignKey>,
    t: Table,
) -> bool {
    &&& t.name == name
    &&& t.foreign_keys@ == fks
    &&& t.check_constraints@ == column_checks(specs) + checks
    &&& forall|i: int|
        0 <= i < specs.len() ==> column_index(t.columns@, #[trigger] specs[i].name@) >= 0
    &&& forall|k: int|
        #![trigger t.columns@[k]]
        0 <= k < t.columns@.len() ==> exists|i: int|
            #![trigger specs[i]]
            0 <= i < specs.len() && defines(cat, d, specs[i], t.columns@[k])
}

proof fn lemma_present_after_add(cols: Seq<Column>, col: Column, n: Seq<char>)
    requires
        column_index(cols, n) >= 0 || names_eq(col.name@, n),
    ensures
        column_index(with_column(cols, col), n) >= 0,
{
    let after = with_column(cols, col);
    lemma_first_index_bounds(cols, named(col.name@));
    lemma_first_index_bounds(cols, named(n));
    lemma_first_index_bounds(after, named(n));
    let i = column_index(cols, col.name@);
    if names_eq(col.name@, n) {
        if i >= 0 {
            assert(named(n)(after[i]));
        } else {
            assert(named(n)(after[cols.len() as int]));
        }
    } else {
        let j = column_index(cols, n);
        if i >= 0 && j == i {
            assert(named(n)(after[i]));
        } else {
            assert(after[j] == cols[j]);
            assert(named(n)(after[j]));
        }
    }
}

/// The table that `CREATE TABLE name (specs, checks)` defines.
pub fn build_table(
    catalog: &Catalog,
    dialect: SqlDialect,
    name: QualifiedName,
    specs: Vec<ColumnSpec>,
    checks: Vec<CheckConstraint>,
) -> (r: Table)
    ensures
        created_table_ok(*catalog, dialect, name, specs@, checks@, Seq::empty(), r),
{
    let ghost all = specs@;
    assert(all.len() == specs.len());
    let mut t = Table::new(name);
    let mut i: usize = 0;
    proof {
        assert(all.take(0) =~= Seq::<ColumnSpec>::empty());
        assert(t.check_constraints@ =~= column_checks(all.take(0)));
    }
    for spec in it: specs
        invariant
            it.seq() == all,
            all.len() <= usize::MAX,
            i == it.index(),
            i <= all.len(),
            t.name == name,
            t.foreign_keys@.len() == 0,
            t.check_constraints@ == column_checks(all.take(i as int)),
            forall|j: int| 0 <= j < i ==> column_index(t.columns@, #[trigger] all[j].name@) >= 0,
            forall|k: int|
                #![trigger t.columns@[k]]
                0 <= k < t.columns@.len() ==> exists|j: int|
                    #![trigger all[j]]
                    0 <= j < i && defines(*catalog, dialect, all[j], t.columns@[k]),
    {
        proof {
            assert(all.take(i + 1).drop_last() =~= all.take(i as int));
            assert(all.take(i + 1).last() == spec);
        }
        let ghost before = t.columns@;
        let ghost checks_before = t.check_constraints@;
        let (c, mut cs) = column_of(catalog, dialect, spec);
        t.add_column(c);
        let mut k: usize = 0;
        let ghost cs0 = cs@;
        assert(cs0.len() == cs.len());
        while cs.len() > 0
            invariant
                cs0.len() <= usize::MAX,
                t.name == name,
                t.foreign_keys@.len() == 0,
                k <= cs0.len(),
                cs@ == cs0.skip(k as int),
                t.check_constraints@ == checks_before + cs0.take(k as int),
                t.columns@ == with_column(before, c),
            decreases cs.len(),
        {
            let x = cs.remove(0);
            t.check_constraints.push(x);
            proof {
                assert(cs0.take(k + 1) =~= cs0.take(k as int).push(x));
                assert(cs0.skip(k + 1) =~= cs0.skip(k as int).drop_first());
            }
            k = k + 1;
        }
        proof {
            assert(cs0.skip(k as int).len() == 0);
            assert(cs0.take(k as int) =~= cs0);
            assert(t.check_constraints@ =~= column_checks(all.take(i + 1)));
            assert forall|j: int| 0 <= j < i + 1 implies column_index(t.columns@, #[trigger] all[j].name@) >= 0 by {
                lemma_present_after_add(before, c, all[j].name@);
            }
            let ci = column_index(before, c.name@);
            lemma_first_index_bounds(before, named(c.name@));
            assert forall|k2: int|
                #![trigger t.columns@[k2]]
                0 <= k2 < t.columns@.len() implies exists|j: int|
                #![trigger all[j]]
                0 <= j < i + 1 && defines(*catalog, dialect, all[j], t.columns@[k2]) by {
                if t.columns@[k2] == c {
                    assert(defines(*catalog, dialect, all[i as int], t.columns@[k2]));
                } else {
                    assert(t.columns@[k2] == before[k2]);
                }
            }
        }
        i = i + 1;
    }
    proof {
        assert(all.take(i as int) =~= all);
    }
    let mut checks = checks;
    let ghost tail = checks@;
    let ghost head = t.check_constraints@;
    let ghost cols = t.columns@;
    assert(tail.len() == checks.len());
    let mut k: usize = 0;
    while checks.len() > 0
        invariant
            tail.len() <= usize::MAX,
            k <= tail.len(),
            checks@ == tail.skip(k as int),
            t.check_constraints@ == head + tail.take(k as int),
            head == column_checks(all),
            t.name == name,
            t.foreign_keys@.len() == 0,
            t.columns@ == cols,
            forall|j: int| 0 <= j < all.len() ==> column_index(cols, #[trigger] all[j].name@) >= 0,
            forall|k2: int|
                #![trigger cols[k2]]
                0 <= k2 < cols.len() ==> exists|j: int|
                    #![trigger all[j]]
                    0 <= j < all.len() && defines(*catalog, dialect, all[j], cols[k2]),
        decreases checks.len(),
    {
        let x = checks.remove(0);
        t.check_constraints.push(x);
        proof {
            assert(tail.take(k + 1) =~= tail.take(k as int).push(x));
            assert(tail.skip(k + 1) =~= tail.skip(k as int).drop_first());
        }
        k = k + 1;
    }
    proof {
        assert(tail.skip(k as int).len() == 0);
        assert(tail.take(k as int) =~= tail);
        assert(t.foreign_keys@ =~= Seq::<ForeignKey>::empty());
    }
    t
}


/// The columns a created view exposes: the declared list, else one name per
/// output item of its body.
pub open spec fn view_columns_ok(declared: Seq<String>, projection: Seq<ProjectionItem>, cols: Seq<String>) -> bool {
    if declared.len() > 0 {
        cols == declared
    } else {
        &&& cols.len() == projection.len()
        &&& forall|i: int| 0 <= i < projection.len() ==> #[trigger] cols[i]@ == output_name(projection[i])
    }
}

/// `after` is `before` with `x` in place of the element at `i` when `i` is
/// a position, else with `x` appended.
pub open spec fn placed<A>(before: Seq<A>, after: Seq<A>, i: int, x: A) -> bool {
    if i >= 0 {
        after == before.update(i, x)
    } else {
        after == before.push(x)
    }
}

/// How statement `stmt` changes catalog `before` into `after` under dialect
/// `d`, and the warning `r` it gives: a duplicate definition replaces the
/// earlier one with a warning; an `ALTER` of a missing table or column
/// changes nothing and warns.
pub open spec fn ddl_applied(
    before: Catalog,
    after: Catalog,
    d: SqlDialect,
    stmt: DdlStatement,
    r: Option<Diagnostic>,
) -> bool {
    &&& after.default_schema == before.default_schema
    &&& match stmt {
        DdlStatement::CreateTable { name, columns, checks, foreign_keys } => {
            let i = table_index(before, name);
            &&& after.views == before.views
            &&& after.enums == before.enums
            &&& exists|t: Table|
                created_table_ok(before, d, name, columns@, checks@, foreign_keys@, t) && #[trigger] placed(
                    before.tables@,
                    after.tables@,
                    i,
                    t,
                )
            &&& (r is Some <==> i >= 0)
            &&& (r is Some ==> r->0.kind == DiagnosticKind::DuplicateDefinition)
        },
        DdlStatement::CreateView { name, materialized, columns, projection } => {
            let i = view_index(before, name);
            &&& after.tables == before.tables
            &&& after.enums == before.enums
            &&& exists|v: CatalogView|
                v.name == name && v.materialized == materialized && view_columns_ok(
                    columns@,
                    projection@,
                    v.columns@,
                ) && #[trigger] placed(before.views@, after.views@, i, v)
            &&& (r is Some <==> i >= 0)
            &&& (r is Some ==> r->0.kind == DiagnosticKind::DuplicateDefinition)
        },
        DdlStatement::CreateEnum { name, labels } => {
            let i = enum_index(before, name@);
            &&& after.tables == before.tables
            &&& after.views == before.views
            &&& placed(before.enums@, after.enums@, i, EnumType { name, values: labels })
            &&& r is None
        },
        DdlStatement::AddColumn { table, column } => {
            let i = table_index(before, table);
            &&& after.views == before.views
            &&& after.enums == before.enums
            &&& (i < 0 ==> after.tables == before.tables && r is Some && r->0.kind
                == DiagnosticKind::TableNotFound)
            &&& (i >= 0 ==> r is None && only_columns_changed(before.tables@, after.tables@, i)
                && exists|c: Column|
                defines(before, d, column, c) && #[trigger] with_column(before.tables@[i].columns@, c)
                    == after.tables@[i].columns@)
        },
        DdlStatement::DropColumn { table, column } => {
            let i = table_index(before, table);
            &&& after.views == before.views
            &&& after.enums == before.enums
            &&& (i < 0 ==> after.tables == before.tables && r is Some && r->0.kind
                == DiagnosticKind::TableNotFound)
            &&& (i >= 0 ==> only_columns_changed(before.tables@, after.tables@, i)
                && after.tables@[i].columns@ == without_column(before.tables@[i].columns@, column@)
                && (r is None <==> column_index(before.tables@[i].columns@, column@) >= 0)
                && (r is Some ==> r->0.kind == DiagnosticKind::ColumnNotFound))
        },
        DdlStatement::RenameColumn { table, from, to } => {
            let i = table_index(before, table);
            &&& after.views == before.views
            &&& after.enums == before.enums
            &&& (i < 0 ==> after.tables == before.tables && r is Some && r->0.kind
                == DiagnosticKind::TableNotFound)
            &&& (i >= 0 ==> only_columns_changed(before.tables@, after.tables@, i) && column_renamed(
                before.tables@[i].columns@,
                after.tables@[i].columns@,
                from@,
                to@,
            ) && (r is None <==> column_index(before.tables@[i].columns@, from@) >= 0) && (r is Some
                ==> r->0.kind == DiagnosticKind::ColumnNotFound))
        },
        DdlStatement::RenameTable { table, to } => {
            let i = table_index(before, table);
            &&& after.views == before.views
            &&& after.enums == before.enums
            &&& (i < 0 ==> after.tables == before.tables && r is Some && r->0.kind
                == DiagnosticKind::TableNotFound)
            &&& (i >= 0 ==> r is None && only_table_changed(before.tables@, after.tables@, i)
                && after.tables@[i].name.name@ == to@ && after.tables@[i].name.schema
                == before.tables@[i].name.schema && after.tables@[i].check_constraints
                == before.tables@[i].check_constraints && after.tables@[i].foreign_keys
                == before.tables@[i].foreign_keys)
        },
        DdlStatement::AddCheck { table, check } => {
            let i = table_index(before, table);
            &&& after.views == before.views
            &&& after.enums == before.enums
            &&& (i < 0 ==> after.tables == before.tables && r is Some && r->0.kind
                == DiagnosticKind::TableNotFound)
            &&& (i >= 0 ==> r is None && only_table_changed(before.tables@, after.tables@, i)
                && after.tables@[i].name == before.tables@[i].name
                && after.tables@[i].check_constraints@ == before.tables@[i].check_constraints@.push(check)
                && after.tables@[i].foreign_keys == before.tables@[i].foreign_keys)
        },
        DdlStatement::AddForeignKey { table, key } => {
            let i = table_index(before, table);
            &&& after.views == before.views
            &&& after.enums == before.enums
            &&& (i < 0 ==> after.tables == before.tables && r is Some && r->0.kind
                == DiagnosticKind::TableNotFound)
            &&& (i >= 0 ==> r is None && only_table_changed(before.tables@, after.tables@, i)
                && after.tables@[i].name == before.tables@[i].name
                && after.tables@[i].check_constraints == before.tables@[i].check_constraints
                && after.tables@[i].foreign_keys@ == before.tables@[i].foreign_keys@.push(key))
        },
    }
}

/// Apply DDL statement `stmt` to `catalog`; returns the warning it gives,
/// if any.
pub fn apply_ddl(catalog: &mut Catalog, dialect: SqlDialect, stmt: DdlStatement) -> (r: Option<Diagnostic>)
    ensures
        ddl_applied(*old(catalog), *final(catalog), dialect, stmt, r),
{
    match stmt {
        DdlStatement::CreateTable { name, columns, checks, foreign_keys } => {
            let ghost before = *catalog;
            let ghost nm = name;
            let ghost cs = columns@;
            let ghost ck = checks@;
            let mut t = build_table(catalog, dialect, name, columns, checks);
            t.foreign_keys = foreign_keys;
            let ghost tt = t;
            let r = catalog.add_table(t);
            proof {
                assert(tt.name == nm);
                assert(placed(before.tables@, catalog.tables@, table_index(before, nm), tt));
            }
            r
        },
        DdlStatement::CreateView { name, materialized, columns, projection } => {
            let ghost before = *catalog;
            let ghost decl = columns@;
            let cols = if columns.len() > 0 {
                columns
            } else {
                infer_view_columns(&projection)
            };
            let v = CatalogView { name, materialized, columns: cols };
            let ghost vv = v;
            let r = catalog.add_view(v);
            proof {
                assert(view_columns_ok(decl, projection@, vv.columns@));
                assert(placed(before.views@, catalog.views@, view_index(before, vv.name), vv));
            }
            r
        },
        DdlStatement::CreateEnum { name, labels } => {
            catalog.add_enum(EnumType { name, values: labels });
            None
        },
        DdlStatement::AddColumn { table, column } => {
            let (c, _checks) = column_of(catalog, dialect, column);
            catalog.alter_add_column(&table, c)
        },
        DdlStatement::DropColumn { table, column } => catalog.alter_drop_column(&table, column.as_str()),
        DdlStatement::RenameColumn { table, from, to } => catalog.alter_rename_column(
            &table,
            from.as_str(),
            to.as_str(),
        ),
        DdlStatement::RenameTable { table, to } => catalog.alter_rename_table(&table, to.as_str()),
        DdlStatement::AddCheck { table, check } => catalog.add_check_constraint(&table, check),
        DdlStatement::AddForeignKey { table, key } => catalog.add_foreign_key(&table, key),
    }
}

/// Where the type's parameters start in `s`: the first `(`, else its end.
pub open spec fn paren_at(s: Seq<char>) -> int {
    let i = first_index(s, |c: char| c == '(');
    if i >= 0 {
        i
    } else {
        s.len() as int
    }
}

/// The keyword of a rendered column type such as `VARCHAR(100)` or
/// `TINYINT(3) UNSIGNED`: the text before its parameters, trimmed, without
/// a trailing `UNSIGNED`.
pub open spec fn keyword_of(s: Seq<char>) -> Seq<char> {
    let t = trim(s.take(paren_at(s)));
    if t.len() >= 9 && t.skip(t.len() - 9) == " UNSIGNED"@ {
        trim_end(t.take(t.len() - 9))
    } else {
        t
    }
}

/// The keyword of rendered column type `s`.
pub fn type_keyword(s: &str) -> (r: String)
    ensures
        r@ == keyword_of(s@),
{
    let cs = chars_of(s);
    let ghost isp = |c: char| c == '(';
    let mut p: usize = 0;
    while p < cs.len() && cs[p] != '('
        invariant
            isp == (|c: char| c == '('),
            p <= cs.len(),
            forall|j: int| 0 <= j < p ==> !isp(#[trigger] cs@[j]),
        decreases cs.len() - p,
    {
        p = p + 1;
    }
    proof {
        if p < cs.len() {
            lemma_first_index_found(cs@, isp, p as int);
        } else {
            lemma_first_index_none(cs@, isp);
        }
        assert(paren_at(s@) == p as int);
    }
    let ghost head = cs@.take(p as int);
    let mut a: usize = 0;
    while a < p && char_is_space(cs[a])
        invariant
            p <= cs.len(),
            a <= p,
            forall|j: int| 0 <= j < a ==> is_space(#[trigger] cs@[j]),
        decreases p - a,
    {
        a = a + 1;
    }
    proof {
        assert forall|j: int| 0 <= j < a implies is_space(#[trigger] head[j]) by {
            assert(head[j] == cs@[j]);
        }
        if a < p {
            assert(head[a as int] == cs@[a as int]);
        }
        lemma_trim_start_skip(head, a as int);
    }
    let mut b: usize = p;
    while b > a && char_is_space(cs[b - 1])
        invariant
            a <= b <= p <= cs.len(),
            forall|j: int| b <= j < p ==> is_space(#[trigger] cs@[j]),
        decreases b,
    {
        b = b - 1;
    }
    let ghost t0 = head.skip(a as int);
    proof {
        assert forall|j: int| b - a <= j < t0.len() implies is_space(#[trigger] t0[j]) by {
            assert(t0[j] == cs@[j + a]);
        }
        if b > a {
            assert(t0[b - a - 1] == cs@[b - 1]);
        }
        lemma_trim_end_take(t0, b - a);
        assert(t0.take(b - a) =~= cs@.subrange(a as int, b as int));
    }
    let ghost t = cs@.subrange(a as int, b as int);
    assert(t == trim(head));
    let suffix = chars_of(" UNSIGNED");
    proof {
        reveal_strlit(" UNSIGNED");
        assert(suffix@.len() == 9);
    }
    let mut e: usize = b;
    if b - a >= suffix.len() {
        let tail = slice_of(&cs, b - suffix.len(), b);
        if vec_eq(&tail, &suffix) {
            proof {
                assert(t.skip(t.len() - 9) =~= tail@);
            }
            let ghost u = t.take(t.len() - 9);
            e = b - suffix.len();
            while e > a && char_is_space(cs[e - 1])
                invariant
                    a <= e <= b - 9,
                    b <= cs.len(),
                    forall|j: int| e <= j < b - 9 ==> is_space(#[trigger] cs@[j]),
                decreases e,
            {
                e = e - 1;
            }
            proof {
                assert forall|j: int| e - a <= j < u.len() implies is_space(#[trigger] u[j]) by {
                    assert(u[j] == cs@[j + a]);
                }
                if e > a {
                    assert(u[e - a - 1] == cs@[e - 1]);
                }
                lemma_trim_end_take(u, e - a);
                assert(u.take(e - a) =~= cs@.subrange(a as int, e as int));
            }
        } else {
            proof {
                assert(t.skip(t.len() - 9) =~= tail@);
            }
        }
    }
    let w = s.substring_char(a, e);
    String::from_str(w)
}

/// Whether a column option word marks an auto-numbered column: MySQL's
/// `AUTO_INCREMENT` or SQLite's `AUTOINCREMENT`, in any letter case.
pub fn is_auto_increment_word(w: &str) -> (r: bool)
    ensures
        r == (upper(w@) == "AUTO_INCREMENT"@ || upper(w@) == "AUTOINCREMENT"@),
{
    let u = uppercased(&chars_of(w));
    vec_eq(&u, &chars_of("AUTO_INCREMENT")) || vec_eq(&u, &chars_of("AUTOINCREMENT"))
}

} // verus!
