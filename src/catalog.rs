//! The schema catalog: tables with ordered columns, views and enum types,
//! with the changes that DDL statements make to it.
use vstd::prelude::*;
use vstd::string::StringExecFns;
use crate::diagnostic::{Diagnostic, DiagnosticKind};
use crate::dialect::{default_schema_of, SqlDialect};
use crate::text::{
    eq_ignore_case, first_index, lemma_first_index_bounds, lemma_first_index_found,
    lemma_first_index_none, names_eq,
};
use crate::types::SqlType;

verus! {

/// A possibly schema-qualified name. Names compare without regard to ASCII
/// case; a missing schema stands for the dialect's default schema.
#[derive(Debug)]
pub struct QualifiedName {
    pub schema: Option<String>,
    pub name: String,
}

#[derive(Debug, Clone, Copy, PartialEq, Eq, Structural)]
pub enum IdentityKind {
    Always,
    ByDefault,
}

#[derive(Debug)]
pub struct Column {
    pub name: String,
    pub data_type: SqlType,
    pub nullable: bool,
    pub is_primary_key: bool,
    pub identity: Option<IdentityKind>,
    pub default_expr: Option<String>,
}

#[derive(Debug)]
pub struct CheckConstraint {
    pub name: Option<String>,
    pub expression: String,
}

#[derive(Debug)]
pub struct ForeignKey {
    pub name: Option<String>,
    pub columns: Vec<String>,
    pub references_table: QualifiedName,
    pub references_columns: Vec<String>,
}

#[derive(Debug)]
pub struct Table {
    pub name: QualifiedName,
    pub columns: Vec<Column>,
    pub check_constraints: Vec<CheckConstraint>,
    pub foreign_keys: Vec<ForeignKey>,
}

#[derive(Debug)]
pub struct CatalogView {
    pub name: QualifiedName,
    pub materialized: bool,
    pub columns: Vec<String>,
}

#[derive(Debug)]
pub struct EnumType {
    pub name: String,
    pub values: Vec<String>,
}

/// Column invariant: identity columns are never nullable.
pub open spec fn column_ok(c: Column) -> bool {
    c.identity is Some ==> !c.nullable
}

/// Whether a column is called `name`.
pub open spec fn named(name: Seq<char>) -> spec_fn(Column) -> bool {
    |c: Column| names_eq(c.name@, name)
}

/// The position of the column called `name` in `cols`, or -1.
pub open spec fn column_index(cols: Seq<Column>, name: Seq<char>) -> int {
    first_index(cols, named(name))
}

/// `cols` after adding `col`: it replaces the column of its name, if there
/// is one, and is appended otherwise.
pub open spec fn with_column(cols: Seq<Column>, col: Column) -> Seq<Column> {
    let i = column_index(cols, col.name@);
    if i >= 0 {
        cols.update(i, col)
    } else {
        cols.push(col)
    }
}

/// `cols` without the column called `name`.
pub open spec fn without_column(cols: Seq<Column>, name: Seq<char>) -> Seq<Column> {
    let i = column_index(cols, name);
    if i >= 0 {
        cols.remove(i)
    } else {
        cols
    }
}

/// Whether `after` is `before` with its column called `from` renamed to
/// `to`, in the same position and with the same attributes.
pub open spec fn column_renamed(
    before: Seq<Column>,
    after: Seq<Column>,
    from: Seq<char>,
    to: Seq<char>,
) -> bool {
    let i = column_index(before, from);
    if i < 0 {
        after == before
    } else {
        &&& after.len() == before.len()
        &&& forall|j: int| 0 <= j < before.len() && j != i ==> after[j] == before[j]
        &&& after[i].name@ == to
        &&& after[i].data_type == before[i].data_type
        &&& after[i].nullable == before[i].nullable
        &&& after[i].is_primary_key == before[i].is_primary_key
        &&& after[i].identity == before[i].identity
        &&& after[i].default_expr == before[i].default_expr
    }
}

pub(crate) fn find_column(cols: &Vec<Column>, name: &str) -> (r: Option<usize>)
    ensures
        r is Some <==> column_index(cols@, name@) >= 0,
        r is Some ==> r->0 == column_index(cols@, name@) && r->0 < cols@.len(),
{
    let ghost p = named(name@);
    let mut i: usize = 0;
    while i < cols.len()
        invariant
            p == named(name@),
            i <= cols.len(),
            forall|j: int| 0 <= j < i ==> !p(#[trigger] cols@[j]),
        decreases cols.len() - i,
    {
        if eq_ignore_case(cols[i].name.as_str(), name) {
            proof {
                lemma_first_index_found(cols@, p, i as int);
            }
            return Some(i);
        }
        i = i + 1;
    }
    proof {
        lemma_first_index_none(cols@, p);
    }
    None
}

impl Column {
    /// A nullable column of type `data_type` with no other attributes.
    pub fn new(name: &str, data_type: SqlType) -> (r: Column)
        ensures
            r.name@ == name@,
            r.data_type == data_type,
            r.nullable,
            !r.is_primary_key,
            r.identity is None,
            r.default_expr is None,
    {
        Column {
            name: String::from_str(name),
            data_type,
            nullable: true,
            is_primary_key: false,
            identity: None,
            default_expr: None,
        }
    }
}

impl Table {
    /// An empty table called `name`.
    pub fn new(name: QualifiedName) -> (r: Table)
        ensures
            r.name == name,
            r.columns@.len() == 0,
            r.check_constraints@.len() == 0,
            r.foreign_keys@.len() == 0,
    {
        Table { name, columns: Vec::new(), check_constraints: Vec::new(), foreign_keys: Vec::new() }
    }

    /// The column called `name`, compared without regard to case.
    pub fn get_column(&self, name: &str) -> (r: Option<&Column>)
        ensures
            r is Some <==> column_index(self.columns@, name@) >= 0,
            r is Some ==> *r->0 == self.columns@[column_index(self.columns@, name@)],
    {
        match find_column(&self.columns, name) {
            Some(i) => Some(&self.columns[i]),
            None => None,
        }
    }

    /// Add `col`, replacing the column of the same name if there is one.
    pub fn add_column(&mut self, col: Column)
        ensures
            final(self).columns@ == with_column(old(self).columns@, col),
            final(self).name == old(self).name,
            final(self).check_constraints == old(self).check_constraints,
            final(self).foreign_keys == old(self).foreign_keys,
    {
        match find_column(&self.columns, col.name.as_str()) {
            Some(i) => {
                let ghost before = self.columns@;
                self.columns.remove(i);
                self.columns.insert(i, col);
                assert(self.columns@ =~= before.update(i as int, col));
            },
            None => {
                self.columns.push(col);
            },
        }
    }

    /// Remove the column called `name`; false if there is none.
    pub fn drop_column(&mut self, name: &str) -> (r: bool)
        ensures
            r == (column_index(old(self).columns@, name@) >= 0),
            final(self).columns@ == without_column(old(self).columns@, name@),
            final(self).name == old(self).name,
            final(self).check_constraints == old(self).check_constraints,
            final(self).foreign_keys == old(self).foreign_keys,
    {
        match find_column(&self.columns, name) {
            Some(i) => {
                self.columns.remove(i);
                true
            },
            None => false,
        }
    }

    /// Rename the column called `from` to `to`, keeping its position; false
    /// if there is none.
    pub fn rename_column(&mut self, from: &str, to: &str) -> (r: bool)
        ensures
            r == (column_index(old(self).columns@, from@) >= 0),
            column_renamed(old(self).columns@, final(self).columns@, from@, to@),
            final(self).name == old(self).name,
            final(self).check_constraints == old(self).check_constraints,
            final(self).foreign_keys == old(self).foreign_keys,
    {
        match find_column(&self.columns, from) {
            Some(i) => {
                let ghost before = self.columns@;
                let mut c = self.columns.remove(i);
                c.name = String::from_str(to);
                self.columns.insert(i, c);
                assert(self.columns@ =~= before.update(i as int, c));
                true
            },
            None => false,
        }
    }
}

/// Renames compose: adding a column `c`, renaming it to `d` and dropping
/// `d` leaves a table's columns as they were, when neither name was taken.
pub proof fn lemma_add_rename_drop(
    cols: Seq<Column>,
    col: Column,
    d: Seq<char>,
    renamed: Seq<Column>,
)
    requires
        column_index(cols, col.name@) < 0,
        column_index(cols, d) < 0,
        column_renamed(with_column(cols, col), renamed, col.name@, d),
    ensures
        without_column(renamed, d) == cols,
{
    let c = col.name@;
    let added = with_column(cols, col);
    let pc = named(c);
    let pd = named(d);
    lemma_first_index_bounds(cols, pc);
    lemma_first_index_bounds(cols, pd);
    assert(added == cols.push(col));
    assert(forall|j: int| 0 <= j < cols.len() ==> added[j] == cols[j]);
    assert(pc(added[cols.len() as int]));
    lemma_first_index_found(added, pc, cols.len() as int);
    let i = cols.len() as int;
    assert(renamed[i].name@ == d);
    assert(forall|j: int| 0 <= j < i ==> renamed[j] == cols[j]);
    assert(names_eq(renamed[i].name@, d));
    lemma_first_index_found(renamed, pd, i);
    assert(renamed.remove(i) =~= cols);
}


/// The schema named by `q`, or `default` if it names none.
pub open spec fn schema_or(q: QualifiedName, default: Seq<char>) -> Seq<char> {
    match q.schema {
        Some(s) => s@,
        None => default,
    }
}

/// Whether `a` and `b` name the same object when `default` is the default
/// schema.
pub open spec fn denotes(default: Seq<char>, a: QualifiedName, b: QualifiedName) -> bool {
    names_eq(a.name@, b.name@) && names_eq(schema_or(a, default), schema_or(b, default))
}

pub open spec fn table_named(default: Seq<char>, q: QualifiedName) -> spec_fn(Table) -> bool {
    |t: Table| denotes(default, t.name, q)
}

pub open spec fn view_named(default: Seq<char>, q: QualifiedName) -> spec_fn(CatalogView) -> bool {
    |v: CatalogView| denotes(default, v.name, q)
}

pub open spec fn enum_named(name: Seq<char>) -> spec_fn(EnumType) -> bool {
    |e: EnumType| names_eq(e.name@, name)
}

/// Tables, views and enum types, with the default schema that unqualified
/// names fall back to.
#[derive(Debug)]
pub struct Catalog {
    pub default_schema: String,
    pub tables: Vec<Table>,
    pub views: Vec<CatalogView>,
    pub enums: Vec<EnumType>,
}

/// The position of the table named `q` in `c`, or -1.
pub open spec fn table_index(c: Catalog, q: QualifiedName) -> int {
    first_index(c.tables@, table_named(c.default_schema@, q))
}

/// The position of the view named `q` in `c`, or -1.
pub open spec fn view_index(c: Catalog, q: QualifiedName) -> int {
    first_index(c.views@, view_named(c.default_schema@, q))
}

/// The position of the enum type called `name` in `c`, or -1.
pub open spec fn enum_index(c: Catalog, name: Seq<char>) -> int {
    first_index(c.enums@, enum_named(name))
}

/// `after` is `before` but for the table at `i`, which keeps its name and
/// constraints.
pub open spec fn only_columns_changed(before: Seq<Table>, after: Seq<Table>, i: int) -> bool {
    &&& after.len() == before.len()
    &&& forall|j: int| 0 <= j < before.len() && j != i ==> after[j] == before[j]
    &&& after[i].name == before[i].name
    &&& after[i].check_constraints == before[i].check_constraints
    &&& after[i].foreign_keys == before[i].foreign_keys
}

/// `after` is `before` but for the table at `i`, which keeps its columns.
pub open spec fn only_table_changed(before: Seq<Table>, after: Seq<Table>, i: int) -> bool {
    &&& after.len() == before.len()
    &&& forall|j: int| 0 <= j < before.len() && j != i ==> after[j] == before[j]
    &&& after[i].columns == before[i].columns
}

/// A warning of `kind` whose message is `what` followed by a quoted name
/// and `rest`.
fn warning_about(kind: DiagnosticKind, what: &str, name: &str, rest: &str) -> (r: Diagnostic)
    ensures
        r.kind == kind,
        r.severity == crate::diagnostic::Severity::Warning,
        r.span is None,
        r.help is None,
{
    let mut m = String::from_str(what);
    m.append(" '");
    m.append(name);
    m.append("'");
    m.append(rest);
    Diagnostic::warning(kind, m.as_str())
}

fn same_object(default: &str, a: &QualifiedName, b: &QualifiedName) -> (r: bool)
    ensures
        r == denotes(default@, *a, *b),
{
    if !eq_ignore_case(a.name.as_str(), b.name.as_str()) {
        return false;
    }
    let sa = match &a.schema {
        Some(s) => s.as_str(),
        None => default,
    };
    let sb = match &b.schema {
        Some(s) => s.as_str(),
        None => default,
    };
    eq_ignore_case(sa, sb)
}

impl QualifiedName {
    /// An unqualified name.
    pub fn new(name: &str) -> (r: QualifiedName)
        ensures
            r.schema is None,
            r.name@ == name@,
    {
        QualifiedName { schema: None, name: String::from_str(name) }
    }

    /// A name qualified by `schema`.
    pub fn with_schema(schema: &str, name: &str) -> (r: QualifiedName)
        ensures
            r.schema is Some && r.schema->0@ == schema@,
            r.name@ == name@,
    {
        QualifiedName { schema: Some(String::from_str(schema)), name: String::from_str(name) }
    }
}

impl Default for Catalog {
    fn default() -> (r: Catalog)
        ensures
            r.default_schema@ == default_schema_of(SqlDialect::PostgreSQL),
            r.tables@.len() == 0,
            r.views@.len() == 0,
            r.enums@.len() == 0,
    {
        Catalog::new(SqlDialect::PostgreSQL)
    }
}

impl Catalog {
    /// An empty catalog for `dialect`.
    pub fn new(dialect: SqlDialect) -> (r: Catalog)
        ensures
            r.default_schema@ == default_schema_of(dialect),
            r.tables@.len() == 0,
            r.views@.len() == 0,
            r.enums@.len() == 0,
    {
        Catalog {
            default_schema: String::from_str(dialect.default_schema()),
            tables: Vec::new(),
            views: Vec::new(),
            enums: Vec::new(),
        }
    }

    fn find_table(&self, name: &QualifiedName) -> (r: Option<usize>)
        ensures
            r is Some <==> table_index(*self, *name) >= 0,
            r is Some ==> r->0 == table_index(*self, *name) && r->0 < self.tables@.len(),
    {
        let ghost p = table_named(self.default_schema@, *name);
        let mut i: usize = 0;
        while i < self.tables.len()
            invariant
                p == table_named(self.default_schema@, *name),
                i <= self.tables.len(),
                forall|j: int| 0 <= j < i ==> !p(#[trigger] self.tables@[j]),
            decreases self.tables.len() - i,
        {
            if same_object(self.default_schema.as_str(), &self.tables[i].name, name) {
                proof {
                    lemma_first_index_found(self.tables@, p, i as int);
                }
                return Some(i);
            }
            i = i + 1;
        }
        proof {
            lemma_first_index_none(self.tables@, p);
        }
        None
    }

    fn find_view(&self, name: &QualifiedName) -> (r: Option<usize>)
        ensures
            r is Some <==> view_index(*self, *name) >= 0,
            r is Some ==> r->0 == view_index(*self, *name) && r->0 < self.views@.len(),
    {
        let ghost p = view_named(self.default_schema@, *name);
        let mut i: usize = 0;
        while i < self.views.len()
            invariant
                p == view_named(self.default_schema@, *name),
                i <= self.views.len(),
                forall|j: int| 0 <= j < i ==> !p(#[trigger] self.views@[j]),
            decreases self.views.len() - i,
        {
            if same_object(self.default_schema.as_str(), &self.views[i].name, name) {
                proof {
                    lemma_first_index_found(self.views@, p, i as int);
                }
                return Some(i);
            }
            i = i + 1;
        }
        proof {
            lemma_first_index_none(self.views@, p);
        }
        None
    }

    fn find_enum(&self, name: &str) -> (r: Option<usize>)
        ensures
            r is Some <==> enum_index(*self, name@) >= 0,
            r is Some ==> r->0 == enum_index(*self, name@) && r->0 < self.enums@.len(),
    {
        let ghost p = enum_named(name@);
        let mut i: usize = 0;
        while i < self.enums.len()
            invariant
                p == enum_named(name@),
                i <= self.enums.len(),
                forall|j: int| 0 <= j < i ==> !p(#[trigger] self.enums@[j]),
            decreases self.enums.len() - i,
        {
            if eq_ignore_case(self.enums[i].name.as_str(), name) {
                proof {
                    lemma_first_index_found(self.enums@, p, i as int);
                }
                return Some(i);
            }
            i = i + 1;
        }
        proof {
            lemma_first_index_none(self.enums@, p);
        }
        None
    }

    /// The table named `name`.
    pub fn get_table(&self, name: &QualifiedName) -> (r: Option<&Table>)
        ensures
            r is Some <==> table_index(*self, *name) >= 0,
            r is Some ==> *r->0 == self.tables@[table_index(*self, *name)],
    {
        match self.find_table(name) {
            Some(i) => Some(&self.tables[i]),
            None => None,
        }
    }

    /// Whether a table named `name` exists.
    pub fn table_exists(&self, name: &QualifiedName) -> (r: bool)
        ensures
            r == (table_index(*self, *name) >= 0),
    {
        self.find_table(name).is_some()
    }

    /// The view named `name`.
    pub fn get_view(&self, name: &QualifiedName) -> (r: Option<&CatalogView>)
        ensures
            r is Some <==> view_index(*self, *name) >= 0,
            r is Some ==> *r->0 == self.views@[view_index(*self, *name)],
    {
        match self.find_view(name) {
            Some(i) => Some(&self.views[i]),
            None => None,
        }
    }

    /// Whether a view named `name` exists.
    pub fn view_exists(&self, name: &QualifiedName) -> (r: bool)
        ensures
            r == (view_index(*self, *name) >= 0),
    {
        self.find_view(name).is_some()
    }

    /// The enum type called `name`.
    pub fn get_enum(&self, name: &str) -> (r: Option<&EnumType>)
        ensures
            r is Some <==> enum_index(*self, name@) >= 0,
            r is Some ==> *r->0 == self.enums@[enum_index(*self, name@)],
    {
        match self.find_enum(name) {
            Some(i) => Some(&self.enums[i]),
            None => None,
        }
    }

    /// Whether an enum type called `name` exists.
    pub fn enum_exists(&self, name: &str) -> (r: bool)
        ensures
            r == (enum_index(*self, name@) >= 0),
    {
        self.find_enum(name).is_some()
    }

    /// Add `table`. One of the same name is replaced, with a warning.
    pub fn add_table(&mut self, table: Table) -> (r: Option<Diagnostic>)
        ensures
            final(self).default_schema == old(self).default_schema,
            final(self).views == old(self).views,
            final(self).enums == old(self).enums,
            table_index(*old(self), table.name) >= 0 ==> {
                &&& final(self).tables@ == old(self).tables@.update(table_index(*old(self), table.name), table)
                &&& r is Some && r->0.kind == DiagnosticKind::DuplicateDefinition
            },
            table_index(*old(self), table.name) < 0 ==> {
                &&& final(self).tables@ == old(self).tables@.push(table)
                &&& r is None
            },
    {
        match self.find_table(&table.name) {
            Some(i) => {
                let w = warning_about(
                    DiagnosticKind::DuplicateDefinition,
                    "Table",
                    table.name.name.as_str(),
                    " is defined more than once",
                );
                let ghost before = self.tables@;
                self.tables.remove(i);
                self.tables.insert(i, table);
                assert(self.tables@ =~= before.update(i as int, table));
                Some(w)
            },
            None => {
                self.tables.push(table);
                None
            },
        }
    }

    /// Add `view`. One of the same name is replaced, with a warning.
    pub fn add_view(&mut self, view: CatalogView) -> (r: Option<Diagnostic>)
        ensures
            final(self).default_schema == old(self).default_schema,
            final(self).tables == old(self).tables,
            final(self).enums == old(self).enums,
            view_index(*old(self), view.name) >= 0 ==> {
                &&& final(self).views@ == old(self).views@.update(view_index(*old(self), view.name), view)
                &&& r is Some && r->0.kind == DiagnosticKind::DuplicateDefinition
            },
            view_index(*old(self), view.name) < 0 ==> {
                &&& final(self).views@ == old(self).views@.push(view)
                &&& r is None
            },
    {
        match self.find_view(&view.name) {
            Some(i) => {
                let w = warning_about(
                    DiagnosticKind::DuplicateDefinition,
                    "View",
                    view.name.name.as_str(),
                    " is defined more than once",
                );
                let ghost before = self.views@;
                self.views.remove(i);
                self.views.insert(i, view);
                assert(self.views@ =~= before.update(i as int, view));
                Some(w)
            },
            None => {
                self.views.push(view);
                None
            },
        }
    }

    /// Register an enum type with its labels in order; one of the same name
    /// is replaced.
    pub fn add_enum(&mut self, e: EnumType)
        ensures
            final(self).default_schema == old(self).default_schema,
            final(self).tables == old(self).tables,
            final(self).views == old(self).views,
            enum_index(*old(self), e.name@) >= 0 ==> final(self).enums@ == old(self).enums@.update(
                enum_index(*old(self), e.name@),
                e,
            ),
            enum_index(*old(self), e.name@) < 0 ==> final(self).enums@ == old(self).enums@.push(e),
    {
        match self.find_enum(e.name.as_str()) {
            Some(i) => {
                let ghost before = self.enums@;
                self.enums.remove(i);
                self.enums.insert(i, e);
                assert(self.enums@ =~= before.update(i as int, e));
            },
            None => {
                self.enums.push(e);
            },
        }
    }

    /// `ALTER TABLE t ADD COLUMN`: add `col` to table `table`, or warn that
    /// the table is missing.
    pub fn alter_add_column(&mut self, table: &QualifiedName, col: Column) -> (r: Option<Diagnostic>)
        ensures
            final(self).default_schema == old(self).default_schema,
            final(self).views == old(self).views,
            final(self).enums == old(self).enums,
            table_index(*old(self), *table) < 0 ==> {
                &&& final(self).tables == old(self).tables
                &&& r is Some && r->0.kind == DiagnosticKind::TableNotFound
            },
            table_index(*old(self), *table) >= 0 ==> {
                let i = table_index(*old(self), *table);
                &&& r is None
                &&& only_columns_changed(old(self).tables@, final(self).tables@, i)
                &&& final(self).tables@[i].columns@ == with_column(old(self).tables@[i].columns@, col)
            },
    {
        match self.find_table(table) {
            None => Some(
                warning_about(DiagnosticKind::TableNotFound, "Table", table.name.as_str(), " not found"),
            ),
            Some(i) => {
                let mut t = self.tables.remove(i);
                t.add_column(col);
                self.tables.insert(i, t);
                None
            },
        }
    }

    /// `ALTER TABLE t DROP COLUMN`: remove column `name` of table `table`,
    /// or warn that the table or the column is missing.
    pub fn alter_drop_column(&mut self, table: &QualifiedName, name: &str) -> (r: Option<Diagnostic>)
        ensures
            final(self).default_schema == old(self).default_schema,
            final(self).views == old(self).views,
            final(self).enums == old(self).enums,
            table_index(*old(self), *table) < 0 ==> {
                &&& final(self).tables == old(self).tables
                &&& r is Some && r->0.kind == DiagnosticKind::TableNotFound
            },
            table_index(*old(self), *table) >= 0 ==> {
                let i = table_index(*old(self), *table);
                &&& only_columns_changed(old(self).tables@, final(self).tables@, i)
                &&& final(self).tables@[i].columns@ == without_column(old(self).tables@[i].columns@, name@)
                &&& (r is None <==> column_index(old(self).tables@[i].columns@, name@) >= 0)
                &&& (r is Some ==> r->0.kind == DiagnosticKind::ColumnNotFound)
            },
    {
        match self.find_table(table) {
            None => Some(
                warning_about(DiagnosticKind::TableNotFound, "Table", table.name.as_str(), " not found"),
            ),
            Some(i) => {
                let mut t = self.tables.remove(i);
                let found = t.drop_column(name);
                self.tables.insert(i, t);
                if found {
                    None
                } else {
                    Some(warning_about(DiagnosticKind::ColumnNotFound, "Column", name, " not found"))
                }
            },
        }
    }

    /// `ALTER TABLE t RENAME COLUMN a TO b`, keeping the column's position;
    /// warns when the table or the column is missing.
    pub fn alter_rename_column(&mut self, table: &QualifiedName, from: &str, to: &str) -> (r:
        Option<Diagnostic>)
        ensures
            final(self).default_schema == old(self).default_schema,
            final(self).views == old(self).views,
            final(self).enums == old(self).enums,
            table_index(*old(self), *table) < 0 ==> {
                &&& final(self).tables == old(self).tables
                &&& r is Some && r->0.kind == DiagnosticKind::TableNotFound
            },
            table_index(*old(self), *table) >= 0 ==> {
                let i = table_index(*old(self), *table);
                &&& only_columns_changed(old(self).tables@, final(self).tables@, i)
                &&& column_renamed(old(self).tables@[i].columns@, final(self).tables@[i].columns@, from@, to@)
                &&& (r is None <==> column_index(old(self).tables@[i].columns@, from@) >= 0)
                &&& (r is Some ==> r->0.kind == DiagnosticKind::ColumnNotFound)
            },
    {
        match self.find_table(table) {
            None => Some(
                warning_about(DiagnosticKind::TableNotFound, "Table", table.name.as_str(), " not found"),
            ),
            Some(i) => {
                let mut t = self.tables.remove(i);
                let found = t.rename_column(from, to);
                self.tables.insert(i, t);
                if found {
                    None
                } else {
                    Some(warning_about(DiagnosticKind::ColumnNotFound, "Column", from, " not found"))
                }
            },
        }
    }

    /// `ALTER TABLE t RENAME TO u`: the table keeps its schema, columns and
    /// constraints under the new name; warns when it is missing.
    pub fn alter_rename_table(&mut self, table: &QualifiedName, to: &str) -> (r: Option<Diagnostic>)
        ensures
            final(self).default_schema == old(self).default_schema,
            final(self).views == old(self).views,
            final(self).enums == old(self).enums,
            table_index(*old(self), *table) < 0 ==> {
                &&& final(self).tables == old(self).tables
                &&& r is Some && r->0.kind == DiagnosticKind::TableNotFound
            },
            table_index(*old(self), *table) >= 0 ==> {
                let i = table_index(*old(self), *table);
                &&& r is None
                &&& only_table_changed(old(self).tables@, final(self).tables@, i)
                &&& final(self).tables@[i].name.name@ == to@
                &&& final(self).tables@[i].name.schema == old(self).tables@[i].name.schema
                &&& final(self).tables@[i].check_constraints == old(self).tables@[i].check_constraints
                &&& final(self).tables@[i].foreign_keys == old(self).tables@[i].foreign_keys
            },
    {
        match self.find_table(table) {
            None => Some(
                warning_about(DiagnosticKind::TableNotFound, "Table", table.name.as_str(), " not found"),
            ),
            Some(i) => {
                let ghost before = self.tables@;
                let mut t = self.tables.remove(i);
                t.name.name = String::from_str(to);
                self.tables.insert(i, t);
                assert(self.tables@ =~= before.update(i as int, t));
                None
            },
        }
    }

    /// `ALTER TABLE t ADD CONSTRAINT ... CHECK`: append `c` to the table's
    /// check constraints; warns when the table is missing.
    pub fn add_check_constraint(&mut self, table: &QualifiedName, c: CheckConstraint) -> (r: Option<Diagnostic>)
        ensures
            final(self).default_schema == old(self).default_schema,
            final(self).views == old(self).views,
            final(self).enums == old(self).enums,
            table_index(*old(self), *table) < 0 ==> {
                &&& final(self).tables == old(self).tables
                &&& r is Some && r->0.kind == DiagnosticKind::TableNotFound
            },
            table_index(*old(self), *table) >= 0 ==> {
                let i = table_index(*old(self), *table);
                &&& r is None
                &&& only_table_changed(old(self).tables@, final(self).tables@, i)
                &&& final(self).tables@[i].name == old(self).tables@[i].name
                &&& final(self).tables@[i].check_constraints@ == old(self).tables@[i].check_constraints@.push(c)
                &&& final(self).tables@[i].foreign_keys == old(self).tables@[i].foreign_keys
            },
    {
        match self.find_table(table) {
            None => Some(
                warning_about(DiagnosticKind::TableNotFound, "Table", table.name.as_str(), " not found"),
            ),
            Some(i) => {
                let ghost before = self.tables@;
                let mut t = self.tables.remove(i);
                t.check_constraints.push(c);
                self.tables.insert(i, t);
                assert(self.tables@ =~= before.update(i as int, t));
                None
            },
        }
    }

    /// `ALTER TABLE t ADD CONSTRAINT ... FOREIGN KEY`: append `fk` to the
    /// table's foreign keys; warns when the table is missing.
    pub fn add_foreign_key(&mut self, table: &QualifiedName, fk: ForeignKey) -> (r: Option<Diagnostic>)
        ensures
            final(self).default_schema == old(self).default_schema,
            final(self).views == old(self).views,
            final(self).enums == old(self).enums,
            table_index(*old(self), *table) < 0 ==> {
                &&& final(self).tables == old(self).tables
                &&& r is Some && r->0.kind == DiagnosticKind::TableNotFound
            },
            table_index(*old(self), *table) >= 0 ==> {
                let i = table_index(*old(self), *table);
                &&& r is None
                &&& only_table_changed(old(self).tables@, final(self).tables@, i)
                &&& final(self).tables@[i].name == old(self).tables@[i].name
                &&& final(self).tables@[i].check_constraints == old(self).tables@[i].check_constraints
                &&& final(self).tables@[i].foreign_keys@ == old(self).tables@[i].foreign_keys@.push(fk)
            },
    {
        match self.find_table(table) {
            None => Some(
                warning_about(DiagnosticKind::TableNotFound, "Table", table.name.as_str(), " not found"),
            ),
            Some(i) => {
                let ghost before = self.tables@;
                let mut t = self.tables.remove(i);
                t.foreign_keys.push(fk);
                self.tables.insert(i, t);
                assert(self.tables@ =~= before.update(i as int, t));
                None
            },
        }
    }
}


/// What a column definition says beyond its name and type.
#[derive(Debug, Clone, Copy, PartialEq, Eq, Structural)]
pub struct ColumnOptions {
    pub primary_key: bool,
    pub not_null: bool,
    /// Declared `SERIAL` or `BIGSERIAL`.
    pub serial: bool,
    /// MySQL `AUTO_INCREMENT` or SQLite `AUTOINCREMENT`.
    pub auto_increment: bool,
    pub identity: Option<IdentityKind>,
}

/// A column may hold NULL unless it is a primary key, `NOT NULL`, serial,
/// auto-incremented or an identity column.
pub open spec fn is_nullable(o: ColumnOptions) -> bool {
    !(o.primary_key || o.not_null || o.serial || o.auto_increment || o.identity is Some)
}

impl Column {
    /// The column that a definition with these options describes.
    pub fn from_definition(
        name: &str,
        data_type: SqlType,
        options: ColumnOptions,
        default_expr: Option<String>,
    ) -> (r: Column)
        ensures
            r.name@ == name@,
            r.data_type == data_type,
            r.nullable == is_nullable(options),
            r.is_primary_key == options.primary_key,
            r.identity == options.identity,
            r.default_expr == default_expr,
            column_ok(r),
    {
        Column {
            name: String::from_str(name),
            data_type,
            nullable: !(options.primary_key || options.not_null || options.serial
                || options.auto_increment || options.identity.is_some()),
            is_primary_key: options.primary_key,
            identity: options.identity,
            default_expr,
        }
    }
}

/// One output item of a view body's projection: its alias, if any, and the
/// identifiers of the column it references (empty when it is not a plain
/// column reference).
#[derive(Debug)]
pub struct ProjectionItem {
    pub alias: Option<String>,
    pub column_path: Vec<String>,
}

/// The name given to an output without alias or column name.
pub open spec fn anonymous_column() -> Seq<char> {
    "?column?"@
}

/// The name a view exposes for item `p`: its alias, else the last
/// identifier of its column reference, else the anonymous name.
pub open spec fn output_name(p: ProjectionItem) -> Seq<char> {
    match p.alias {
        Some(a) => a@,
        None => if p.column_path@.len() > 0 {
            p.column_path@.last()@
        } else {
            anonymous_column()
        },
    }
}

/// The columns a view exposes when it declares none: one name per output
/// item of its body, in order.
pub fn infer_view_columns(items: &Vec<ProjectionItem>) -> (r: Vec<String>)
    ensures
        r@.len() == items@.len(),
        forall|i: int| 0 <= i < items@.len() ==> #[trigger] r@[i]@ == output_name(items@[i]),
{
    let mut out: Vec<String> = Vec::new();
    let mut i: usize = 0;
    while i < items.len()
        invariant
            i <= items.len(),
            out@.len() == i,
            forall|k: int| 0 <= k < i ==> #[trigger] out@[k]@ == output_name(items@[k]),
        decreases items.len() - i,
    {
        let p = &items[i];
        let name = match &p.alias {
            Some(a) => a.clone(),
            None => {
                let n = p.column_path.len();
                if n > 0 {
                    p.column_path[n - 1].clone()
                } else {
                    String::from_str("?column?")
                }
            },
        };
        out.push(name);
        i = i + 1;
    }
    out
}

} // verus!
