//! The scope stack of name resolution: nested frames of bindings, one frame
//! per query block, subquery or DML target.
use vstd::prelude::*;
use crate::catalog::{
    infer_view_columns, output_name, table_index, view_index, Catalog, CatalogView, Column,
    ProjectionItem, QualifiedName, Table,
};
use crate::diagnostic::views;
use crate::suggest::{best_match, suggestion, suggestion_for};
use crate::text::{eq_ignore_case, first_index, names_eq};
use crate::types::{accepts, accepts_value, compatible, copy_type, SqlType, ValueType};
use crate::checks::mismatch_message;
use crate::diagnostic::{Diagnostic, DiagnosticKind, Severity, Span};
use vstd::string::StringExecFns;

verus! {

/// Where a binding's columns come from.
#[derive(Debug, Clone, Copy, PartialEq, Eq, Structural)]
pub enum BindingKind {
    Table,
    View,
    Derived,
    Cte,
    Unnest,
}

/// A column exposed by a binding.
#[derive(Debug)]
pub struct BoundColumn {
    pub name: String,
    pub data_type: SqlType,
}

/// A named source of columns within a frame.
#[derive(Debug)]
pub struct Binding {
    pub alias: String,
    pub kind: BindingKind,
    pub columns: Vec<BoundColumn>,
}

/// One level of the scope stack.
#[derive(Debug)]
pub struct Frame {
    pub bindings: Vec<Binding>,
}

/// The outcome of resolving a column reference.
#[derive(Debug, Clone, Copy, PartialEq, Eq, Structural)]
pub enum Resolution {
    /// The column at `column` of binding `binding` in frame `frame` (frame 0
    /// is the outermost).
    Found { frame: usize, binding: usize, column: usize },
    /// No binding exposes the column.
    ColumnNotFound,
    /// No binding has the qualifying alias.
    TableNotFound,
    /// Several bindings of the nearest frame expose the column.
    Ambiguous,
}

/// What resolution sees of a binding: its alias and its column names.
pub struct BindingView {
    pub alias: Seq<char>,
    pub columns: Seq<Seq<char>>,
    pub types: Seq<SqlType>,
}

pub open spec fn binding_view(b: Binding) -> BindingView {
    BindingView {
        alias: b.alias@,
        columns: b.columns@.map_values(|c: BoundColumn| c.name@),
        types: b.columns@.map_values(|c: BoundColumn| c.data_type),
    }
}

pub open spec fn frame_view(f: Frame) -> Seq<BindingView> {
    f.bindings@.map_values(|b: Binding| binding_view(b))
}

/// What resolution sees of a stack of frames, outermost first.
pub open spec fn stack_view(fs: Seq<Frame>) -> Seq<Seq<BindingView>> {
    fs.map_values(|f: Frame| frame_view(f))
}

pub open spec fn col_named(c: Seq<char>) -> spec_fn(Seq<char>) -> bool {
    |n: Seq<char>| names_eq(n, c)
}

/// The position of column `c` in binding `b`, or -1.
pub open spec fn binding_column(b: BindingView, c: Seq<char>) -> int {
    first_index(b.columns, col_named(c))
}

pub open spec fn provides(c: Seq<char>) -> spec_fn(BindingView) -> bool {
    |b: BindingView| binding_column(b, c) >= 0
}

pub open spec fn aliased(a: Seq<char>) -> spec_fn(BindingView) -> bool {
    |b: BindingView| names_eq(b.alias, a)
}

/// How many of `bs` expose column `c`.
pub open spec fn providers(bs: Seq<BindingView>, c: Seq<char>) -> nat
    decreases bs.len(),
{
    if bs.len() == 0 {
        0
    } else {
        providers(bs.drop_last(), c) + if provides(c)(bs.last()) {
            1nat
        } else {
            0nat
        }
    }
}

/// The innermost frame where some binding exposes `c`, or -1.
pub open spec fn nearest_with_column(frames: Seq<Seq<BindingView>>, c: Seq<char>) -> int
    decreases frames.len(),
{
    if frames.len() == 0 {
        -1
    } else if providers(frames.last(), c) > 0 {
        frames.len() - 1
    } else {
        nearest_with_column(frames.drop_last(), c)
    }
}

/// The innermost frame with a binding aliased `a`, or -1.
pub open spec fn nearest_with_alias(frames: Seq<Seq<BindingView>>, a: Seq<char>) -> int
    decreases frames.len(),
{
    if frames.len() == 0 {
        -1
    } else if first_index(frames.last(), aliased(a)) >= 0 {
        frames.len() - 1
    } else {
        nearest_with_alias(frames.drop_last(), a)
    }
}

/// Resolving unqualified column `c`: the innermost frame with a match
/// decides; one match there is found, more are ambiguous.
pub open spec fn resolve_unqualified(frames: Seq<Seq<BindingView>>, c: Seq<char>) -> Resolution {
    let f = nearest_with_column(frames, c);
    if f < 0 {
        Resolution::ColumnNotFound
    } else if providers(frames[f], c) > 1 {
        Resolution::Ambiguous
    } else {
        let b = first_index(frames[f], provides(c));
        Resolution::Found {
            frame: f as usize,
            binding: b as usize,
            column: binding_column(frames[f][b], c) as usize,
        }
    }
}

/// Resolving `a.c`: the innermost binding aliased `a`, then its column `c`.
pub open spec fn resolve_qualified(frames: Seq<Seq<BindingView>>, a: Seq<char>, c: Seq<char>) -> Resolution {
    let f = nearest_with_alias(frames, a);
    if f < 0 {
        Resolution::TableNotFound
    } else {
        let b = first_index(frames[f], aliased(a));
        let k = binding_column(frames[f][b], c);
        if k < 0 {
            Resolution::ColumnNotFound
        } else {
            Resolution::Found { frame: f as usize, binding: b as usize, column: k as usize }
        }
    }
}

fn column_position(b: &Binding, c: &str) -> (r: Option<usize>)
    ensures
        r is Some <==> binding_column(binding_view(*b), c@) >= 0,
        r is Some ==> r->0 == binding_column(binding_view(*b), c@),
{
    let ghost p = col_named(c@);
    let ghost cols = binding_view(*b).columns;
    let mut i: usize = 0;
    while i < b.columns.len()
        invariant
            p == col_named(c@),
            cols == binding_view(*b).columns,
            cols.len() == b.columns@.len(),
            i <= b.columns.len(),
            forall|j: int| 0 <= j < i ==> !p(#[trigger] cols[j]),
        decreases b.columns.len() - i,
    {
        if eq_ignore_case(b.columns[i].name.as_str(), c) {
            proof {
                assert(cols[i as int] == b.columns@[i as int].name@);
                crate::text::lemma_first_index_found(cols, p, i as int);
            }
            return Some(i);
        }
        assert(cols[i as int] == b.columns@[i as int].name@);
        i = i + 1;
    }
    proof {
        crate::text::lemma_first_index_none(cols, p);
    }
    None
}

/// How many bindings of `bs` expose `c`, and the first that does.
fn count_providers(bs: &Vec<Binding>, c: &str) -> (r: (usize, usize, usize))
    ensures
        r.0 == providers(bs@.map_values(|b: Binding| binding_view(b)), c@),
        r.0 > 0 ==> r.1 == first_index(bs@.map_values(|b: Binding| binding_view(b)), provides(c@))
            && r.1 < bs@.len() && r.2 == binding_column(binding_view(bs@[r.1 as int]), c@),
{
    let ghost vs = bs@.map_values(|b: Binding| binding_view(b));
    let ghost p = provides(c@);
    let mut n: usize = 0;
    let mut first: usize = 0;
    let mut col: usize = 0;
    let mut i: usize = 0;
    proof {
        assert(vs.take(0) =~= Seq::<BindingView>::empty());
    }
    while i < bs.len()
        invariant
            vs == bs@.map_values(|b: Binding| binding_view(b)),
            p == provides(c@),
            i <= bs.len(),
            n <= i,
            n == providers(vs.take(i as int), c@),
            n > 0 ==> first == first_index(vs.take(i as int), p) && first < i && col
                == binding_column(binding_view(bs@[first as int]), c@),
            n == 0 ==> first_index(vs.take(i as int), p) == -1,
        decreases bs.len() - i,
    {
        proof {
            assert(vs.take(i + 1).drop_last() =~= vs.take(i as int));
            assert(vs.take(i + 1).last() == binding_view(bs@[i as int]));
        }
        match column_position(&bs[i], c) {
            Some(k) => {
                if n == 0 {
                    first = i;
                    col = k;
                }
                n = n + 1;
            },
            None => {},
        }
        proof {
            if n > 0 {
                crate::text::lemma_first_index_bounds(vs.take(i + 1), p);
                assert(vs.take(i + 1)[first as int] == vs[first as int]);
            }
        }
        i = i + 1;
    }
    proof {
        assert(vs.take(i as int) =~= vs);
    }
    (n, first, col)
}

/// The first binding of `bs` aliased `a`.
fn find_alias(bs: &Vec<Binding>, a: &str) -> (r: Option<usize>)
    ensures
        r is Some <==> first_index(bs@.map_values(|b: Binding| binding_view(b)), aliased(a@)) >= 0,
        r is Some ==> r->0 == first_index(bs@.map_values(|b: Binding| binding_view(b)), aliased(a@))
            && r->0 < bs@.len(),
{
    let ghost vs = bs@.map_values(|b: Binding| binding_view(b));
    let ghost p = aliased(a@);
    let mut i: usize = 0;
    while i < bs.len()
        invariant
            vs == bs@.map_values(|b: Binding| binding_view(b)),
            p == aliased(a@),
            i <= bs.len(),
            forall|j: int| 0 <= j < i ==> !p(#[trigger] vs[j]),
        decreases bs.len() - i,
    {
        assert(vs[i as int] == binding_view(bs@[i as int]));
        if eq_ignore_case(bs[i].alias.as_str(), a) {
            proof {
                crate::text::lemma_first_index_found(vs, p, i as int);
            }
            return Some(i);
        }
        i = i + 1;
    }
    proof {
        crate::text::lemma_first_index_none(vs, p);
    }
    None
}

/// A stack of frames; the last is the innermost.
pub struct ScopeStack {
    pub frames: Vec<Frame>,
}

impl ScopeStack {
    /// A stack with no frames.
    pub fn new() -> (r: ScopeStack)
        ensures
            r.frames@.len() == 0,
    {
        ScopeStack { frames: Vec::new() }
    }

    /// Enter a query block, subquery or DML target.
    pub fn push_frame(&mut self)
        ensures
            final(self).frames@.len() == old(self).frames@.len() + 1,
            final(self).frames@.drop_last() == old(self).frames@,
            final(self).frames@.last().bindings@.len() == 0,
    {
        self.frames.push(Frame { bindings: Vec::new() });
        proof {
            assert(self.frames@.drop_last() =~= old(self).frames@);
        }
    }

    /// Leave the innermost frame, dropping its bindings.
    pub fn pop_frame(&mut self) -> (r: Option<Frame>)
        ensures
            old(self).frames@.len() > 0 ==> final(self).frames@ == old(self).frames@.drop_last()
                && r == Some(old(self).frames@.last()),
            old(self).frames@.len() == 0 ==> final(self).frames@ == old(self).frames@ && r is None,
    {
        self.frames.pop()
    }

    /// Bind `b` in the innermost frame. Refused (false) when there is no
    /// frame or the frame already has a binding of that alias.
    pub fn add_binding(&mut self, b: Binding) -> (r: bool)
        ensures
            r == (old(self).frames@.len() > 0 && first_index(
                frame_view(old(self).frames@.last()),
                aliased(b.alias@),
            ) < 0),
            r ==> final(self).frames@.len() == old(self).frames@.len(),
            r ==> final(self).frames@.drop_last() == old(self).frames@.drop_last(),
            r ==> final(self).frames@.last().bindings@ == old(self).frames@.last().bindings@.push(b),
            !r ==> final(self).frames@ == old(self).frames@,
    {
        let n = self.frames.len();
        if n == 0 {
            return false;
        }
        if find_alias(&self.frames[n - 1].bindings, b.alias.as_str()).is_some() {
            return false;
        }
        let ghost before = self.frames@;
        let mut f = self.frames.pop().unwrap();
        f.bindings.push(b);
        self.frames.push(f);
        proof {
            assert(self.frames@.drop_last() =~= before.drop_last());
        }
        true
    }

    /// Resolve unqualified column `c`: the innermost frame where some binding
    /// exposes it decides.
    pub fn resolve_column(&self, c: &str) -> (r: Resolution)
        ensures
            r == resolve_unqualified(stack_view(self.frames@), c@),
    {
        let ghost fs = stack_view(self.frames@);
        let mut i: usize = self.frames.len();
        proof {
            assert(fs.take(i as int) =~= fs);
        }
        while i > 0
            invariant
                fs == stack_view(self.frames@),
                i <= fs.len(),
                nearest_with_column(fs, c@) == nearest_with_column(fs.take(i as int), c@),
            decreases i,
        {
            let (n, b, k) = count_providers(&self.frames[i - 1].bindings, c);
            proof {
                assert(fs.take(i as int).drop_last() =~= fs.take(i - 1));
                assert(fs.take(i as int).last() == fs[i - 1]);
                assert(fs[i - 1] == frame_view(self.frames@[i - 1]));
            }
            if n > 1 {
                return Resolution::Ambiguous;
            } else if n == 1 {
                return Resolution::Found { frame: i - 1, binding: b, column: k };
            }
            i = i - 1;
        }
        Resolution::ColumnNotFound
    }

    /// Resolve `a.c`: the innermost binding aliased `a`, then its column.
    pub fn resolve_qualified_column(&self, a: &str, c: &str) -> (r: Resolution)
        ensures
            r == resolve_qualified(stack_view(self.frames@), a@, c@),
    {
        let ghost fs = stack_view(self.frames@);
        let mut i: usize = self.frames.len();
        proof {
            assert(fs.take(i as int) =~= fs);
        }
        while i > 0
            invariant
                fs == stack_view(self.frames@),
                i <= fs.len(),
                nearest_with_alias(fs, a@) == nearest_with_alias(fs.take(i as int), a@),
            decreases i,
        {
            proof {
                assert(fs.take(i as int).drop_last() =~= fs.take(i - 1));
                assert(fs.take(i as int).last() == fs[i - 1]);
                assert(fs[i - 1] == frame_view(self.frames@[i - 1]));
            }
            match find_alias(&self.frames[i - 1].bindings, a) {
                Some(b) => {
                    return match column_position(&self.frames[i - 1].bindings[b], c) {
                        Some(k) => Resolution::Found { frame: i - 1, binding: b, column: k },
                        None => Resolution::ColumnNotFound,
                    };
                },
                None => {},
            }
            i = i - 1;
        }
        Resolution::TableNotFound
    }
}

/// The message for a failed resolution of `c`, qualified by `q` if given.
pub open spec fn resolution_message(r: Resolution, q: Option<Seq<char>>, c: Seq<char>) -> Seq<char> {
    match r {
        Resolution::TableNotFound => "Table or alias '"@ + q.unwrap_or(Seq::empty()) + "' not found"@,
        Resolution::Ambiguous => "Column '"@ + c + "' is ambiguous"@,
        _ => "Column '"@ + c + "' not found"@,
    }
}

/// The diagnostic kind of a resolution outcome; none when the column was
/// found.
pub open spec fn resolution_kind(r: Resolution) -> Option<DiagnosticKind> {
    match r {
        Resolution::Found { .. } => None,
        Resolution::ColumnNotFound => Some(DiagnosticKind::ColumnNotFound),
        Resolution::TableNotFound => Some(DiagnosticKind::TableNotFound),
        Resolution::Ambiguous => Some(DiagnosticKind::AmbiguousColumn),
    }
}

/// The error for resolving column `c` (qualified by `q`, if given) with
/// outcome `r`; none when it was found.
pub fn resolution_error(r: Resolution, q: Option<&str>, c: &str) -> (d: Option<Diagnostic>)
    ensures
        d is None <==> resolution_kind(r) is None,
        d is Some ==> d->0.span is None && d->0.help is None,
        d is Some ==> d->0.kind == resolution_kind(r)->0 && d->0.severity == Severity::Error
            && d->0.message@ == resolution_message(
            r,
            match q {
                Some(s) => Some(s@),
                None => None,
            },
            c@,
        ),
{
    let mut m = String::new();
    let kind = match r {
        Resolution::Found { .. } => {
            return None;
        },
        Resolution::TableNotFound => {
            m.append("Table or alias '");
            match q {
                Some(s) => m.append(s),
                None => {},
            }
            m.append("' not found");
            DiagnosticKind::TableNotFound
        },
        Resolution::Ambiguous => {
            m.append("Column '");
            m.append(c);
            m.append("' is ambiguous");
            DiagnosticKind::AmbiguousColumn
        },
        Resolution::ColumnNotFound => {
            m.append("Column '");
            m.append(c);
            m.append("' not found");
            DiagnosticKind::ColumnNotFound
        },
    };
    proof {
        if q is None {
            assert(Seq::<char>::empty() + "' not found"@ =~= "' not found"@);
        }
    }
    Some(Diagnostic::error(kind, m.as_str()))
}

/// The binding of a derived table whose declared names do not fit: those
/// names, with unknown types.
fn declared_binding(d: &DerivedTable) -> (r: Binding)
    requires
        !derived_fits(*d),
    ensures
        binding_view(r) == derived_view(*d),
{
    let mut cols: Vec<BoundColumn> = Vec::new();
    let mut i: usize = 0;
    while i < d.names.len()
        invariant
            i <= d.names.len(),
            cols@.len() == i,
            forall|k: int| 0 <= k < i ==> #[trigger] cols@[k].name@ == d.names@[k]@ && cols@[k].data_type
                == SqlType::Unknown,
        decreases d.names.len() - i,
    {
        cols.push(BoundColumn { name: d.names[i].clone(), data_type: SqlType::Unknown });
        i = i + 1;
    }
    let b = Binding { alias: d.alias.clone(), kind: BindingKind::Derived, columns: cols };
    assert(binding_view(b).columns =~= derived_view(*d).columns);
    assert forall|k: int| 0 <= k < cols@.len() implies #[trigger] cols@[k].data_type == SqlType::Unknown by {
        assert(cols@[k].name@ == d.names@[k]@);
    }
    assert(binding_view(b).types =~= derived_view(*d).types);
    b
}

/// The message for a derived table whose column list does not match its
/// subquery.
pub open spec fn arity_message(alias: Seq<char>) -> Seq<char> {
    "Derived table '"@ + alias + "' names a different number of columns than its subquery returns"@
}

/// Whether `cols` are `outputs` renamed in order by `names`.
pub open spec fn renamed_outputs(cols: Seq<BoundColumn>, names: Seq<String>, outputs: Seq<BoundColumn>) -> bool {
    &&& cols.len() == names.len()
    &&& forall|i: int|
        0 <= i < names.len() ==> #[trigger] cols[i].name@ == names[i]@ && cols[i].data_type
            == outputs[i].data_type
}

/// The binding of a derived table `(subquery) AS alias (names...)`: the
/// subquery's output columns, renamed in order by `names` when any are
/// given. Fewer or more names than columns is a column-count mismatch.
pub fn derived_binding(alias: &str, outputs: Vec<BoundColumn>, names: &Vec<String>) -> (r: Result<
    Binding,
    Diagnostic,
>)
    ensures
        r is Err ==> r->Err_0.message@ == arity_message(alias@) && r->Err_0.span is None,
        names@.len() > 0 && names@.len() != outputs@.len() ==> (r is Err && r->Err_0.kind
            == DiagnosticKind::ColumnCountMismatch),
        (names@.len() == 0 || names@.len() == outputs@.len()) ==> (r is Ok && r->Ok_0.alias@
            == alias@ && r->Ok_0.kind == BindingKind::Derived && r->Ok_0.columns@.len()
            == outputs@.len()),
        names@.len() == 0 ==> (r is Ok && r->Ok_0.columns@ == outputs@),
        names@.len() > 0 && names@.len() == outputs@.len() ==> (r is Ok && renamed_outputs(
            r->Ok_0.columns@,
            names@,
            outputs@,
        )),
{
    if names.len() == 0 {
        return Ok(Binding { alias: String::from_str(alias), kind: BindingKind::Derived, columns: outputs });
    }
    if names.len() != outputs.len() {
        let mut m = String::from_str("Derived table '");
        m.append(alias);
        m.append("' names a different number of columns than its subquery returns");
        assert(m@ =~= arity_message(alias@));
        return Err(Diagnostic::error(DiagnosticKind::ColumnCountMismatch, m.as_str()));
    }
    let mut cols: Vec<BoundColumn> = Vec::new();
    let mut i: usize = 0;
    while i < outputs.len()
        invariant
            outputs@.len() == names@.len(),
            i <= outputs.len(),
            cols@.len() == i,
            forall|k: int|
                0 <= k < i ==> #[trigger] cols@[k].name@ == names@[k]@ && cols@[k].data_type
                    == outputs@[k].data_type,
        decreases outputs.len() - i,
    {
        cols.push(BoundColumn { name: names[i].clone(), data_type: copy_type(&outputs[i].data_type) });
        i = i + 1;
    }
    assert(renamed_outputs(cols@, names@, outputs@));
    Ok(Binding { alias: String::from_str(alias), kind: BindingKind::Derived, columns: cols })
}


/// A CTE of a `WITH` clause and the columns it exposes (for a DML body with
/// `RETURNING`, the returned columns).
#[derive(Debug)]
pub struct CteDef {
    pub name: String,
    pub columns: Vec<BoundColumn>,
}

pub open spec fn cte_named(n: Seq<char>) -> spec_fn(CteDef) -> bool {
    |c: CteDef| names_eq(c.name@, n)
}

/// The CTE that an unqualified name `q` denotes, or -1.
pub open spec fn cte_index(ctes: Seq<CteDef>, q: QualifiedName) -> int {
    if q.schema is Some {
        -1
    } else {
        first_index(ctes, cte_named(q.name@))
    }
}

/// Where a `FROM` item named `q` takes its columns: a CTE first, then a
/// view, then a table.
pub enum FromSource {
    Cte(int),
    View(int),
    Table(int),
    Missing,
}

pub open spec fn from_source(c: Catalog, ctes: Seq<CteDef>, q: QualifiedName) -> FromSource {
    if cte_index(ctes, q) >= 0 {
        FromSource::Cte(cte_index(ctes, q))
    } else if view_index(c, q) >= 0 {
        FromSource::View(view_index(c, q))
    } else if table_index(c, q) >= 0 {
        FromSource::Table(table_index(c, q))
    } else {
        FromSource::Missing
    }
}

/// The column names that the relation named `q` exposes.
pub open spec fn source_columns(c: Catalog, ctes: Seq<CteDef>, q: QualifiedName) -> Seq<Seq<char>> {
    match from_source(c, ctes, q) {
        FromSource::Cte(i) => ctes[i].columns@.map_values(|x: BoundColumn| x.name@),
        FromSource::View(i) => c.views@[i].columns@.map_values(|x: String| x@),
        FromSource::Table(i) => c.tables@[i].columns@.map_values(|x: Column| x.name@),
        FromSource::Missing => Seq::empty(),
    }
}

/// The column types that the relation named `q` exposes; a view's are
/// unknown.
pub open spec fn source_types(c: Catalog, ctes: Seq<CteDef>, q: QualifiedName) -> Seq<SqlType> {
    match from_source(c, ctes, q) {
        FromSource::Cte(i) => ctes[i].columns@.map_values(|x: BoundColumn| x.data_type),
        FromSource::View(i) => c.views@[i].columns@.map_values(|x: String| SqlType::Unknown),
        FromSource::Table(i) => c.tables@[i].columns@.map_values(|x: Column| x.data_type),
        FromSource::Missing => Seq::empty(),
    }
}

/// The message for a `FROM` item that names nothing.
pub open spec fn missing_table_message(n: Seq<char>) -> Seq<char> {
    "Table '"@ + n + "' not found"@
}

/// The names a `FROM` item may be suggested from: CTEs, then tables.
pub open spec fn known_relations(c: Catalog, ctes: Seq<CteDef>) -> Seq<Seq<char>> {
    Seq::new(ctes.len(), |i: int| ctes[i].name@) + Seq::new(
        c.tables@.len(),
        |i: int| c.tables@[i].name.name@,
    )
}

fn find_cte(ctes: &Vec<CteDef>, q: &QualifiedName) -> (r: Option<usize>)
    ensures
        r is Some <==> cte_index(ctes@, *q) >= 0,
        r is Some ==> r->0 == cte_index(ctes@, *q) && r->0 < ctes@.len(),
{
    if q.schema.is_some() {
        return None;
    }
    let ghost p = cte_named(q.name@);
    let mut i: usize = 0;
    while i < ctes.len()
        invariant
            p == cte_named(q.name@),
            q.schema is None,
            i <= ctes.len(),
            forall|j: int| 0 <= j < i ==> !p(#[trigger] ctes@[j]),
        decreases ctes.len() - i,
    {
        if eq_ignore_case(ctes[i].name.as_str(), q.name.as_str()) {
            proof {
                crate::text::lemma_first_index_found(ctes@, p, i as int);
            }
            return Some(i);
        }
        i = i + 1;
    }
    proof {
        crate::text::lemma_first_index_none(ctes@, p);
    }
    None
}

fn copy_columns(cols: &Vec<BoundColumn>) -> (r: Vec<BoundColumn>)
    ensures
        r@.len() == cols@.len(),
        forall|k: int|
            0 <= k < cols@.len() ==> #[trigger] r@[k].name == cols@[k].name && r@[k].data_type
                == cols@[k].data_type,
{
    let mut out: Vec<BoundColumn> = Vec::new();
    let mut i: usize = 0;
    while i < cols.len()
        invariant
            i <= cols.len(),
            out@.len() == i,
            forall|k: int|
                0 <= k < i ==> #[trigger] out@[k].name == cols@[k].name && out@[k].data_type
                    == cols@[k].data_type,
        decreases cols.len() - i,
    {
        out.push(BoundColumn { name: cols[i].name.clone(), data_type: copy_type(&cols[i].data_type) });
        i = i + 1;
    }
    out
}

/// Whether `bound` lists the columns `cols` of a table, with their types.
pub open spec fn binds_columns(bound: Seq<BoundColumn>, cols: Seq<Column>) -> bool {
    &&& bound.len() == cols.len()
    &&& forall|k: int|
        0 <= k < cols.len() ==> #[trigger] bound[k].name == cols[k].name && bound[k].data_type
            == cols[k].data_type
}

fn table_columns(table: &Table) -> (r: Vec<BoundColumn>)
    ensures
        binds_columns(r@, table.columns@),
{
    let mut out: Vec<BoundColumn> = Vec::new();
    let mut i: usize = 0;
    while i < table.columns.len()
        invariant
            i <= table.columns.len(),
            out@.len() == i,
            forall|k: int|
                0 <= k < i ==> #[trigger] out@[k].name == table.columns@[k].name && out@[k].data_type
                    == table.columns@[k].data_type,
        decreases table.columns.len() - i,
    {
        let c = BoundColumn {
            name: table.columns[i].name.clone(),
            data_type: copy_type(&table.columns[i].data_type),
        };
        out.push(c);
        i = i + 1;
    }
    out
}

fn view_columns(v: &CatalogView) -> (r: Vec<BoundColumn>)
    ensures
        r@.len() == v.columns@.len(),
        forall|k: int|
            0 <= k < v.columns@.len() ==> #[trigger] r@[k].name == v.columns@[k] && r@[k].data_type
                == SqlType::Unknown,
{
    let mut out: Vec<BoundColumn> = Vec::new();
    let mut i: usize = 0;
    while i < v.columns.len()
        invariant
            i <= v.columns.len(),
            out@.len() == i,
            forall|k: int|
                0 <= k < i ==> #[trigger] out@[k].name == v.columns@[k] && out@[k].data_type
                    == SqlType::Unknown,
        decreases v.columns.len() - i,
    {
        out.push(BoundColumn { name: v.columns[i].clone(), data_type: SqlType::Unknown });
        i = i + 1;
    }
    out
}

fn relation_names(catalog: &Catalog, ctes: &Vec<CteDef>) -> (r: Vec<String>)
    ensures
        views(r@) == known_relations(*catalog, ctes@),
{
    let mut out: Vec<String> = Vec::new();
    let mut i: usize = 0;
    while i < ctes.len()
        invariant
            i <= ctes.len(),
            out@.len() == i,
            forall|k: int| 0 <= k < i ==> #[trigger] out@[k]@ == ctes@[k].name@,
        decreases ctes.len() - i,
    {
        out.push(ctes[i].name.clone());
        i = i + 1;
    }
    let n = ctes.len();
    let mut j: usize = 0;
    while j < catalog.tables.len()
        invariant
            n == ctes@.len(),
            j <= catalog.tables.len(),
            out@.len() == n + j,
            forall|k: int| 0 <= k < n ==> #[trigger] out@[k]@ == ctes@[k].name@,
            forall|k: int| n <= k < n + j ==> #[trigger] out@[k]@ == catalog.tables@[k - n].name.name@,
        decreases catalog.tables.len() - j,
    {
        out.push(catalog.tables[j].name.name.clone());
        j = j + 1;
    }
    let ghost kr = known_relations(*catalog, ctes@);
    assert forall|k: int| 0 <= k < out@.len() implies #[trigger] views(out@)[k] == kr[k] by {
        if k < n {
            assert(out@[k]@ == ctes@[k].name@);
        } else {
            assert(out@[k]@ == catalog.tables@[k - n].name.name@);
        }
    }
    assert(views(out@) =~= kr);
    out
}

/// Bind the `FROM` item `name` (under `alias`, if given): a CTE of `ctes`
/// first, then a view, then a table of `catalog`; a table-not-found error,
/// with the nearest known name as help, when it is none of these.
pub fn bind_from_item(catalog: &Catalog, ctes: &Vec<CteDef>, name: &QualifiedName, alias: Option<&str>) -> (r:
    Result<Binding, Diagnostic>)
    ensures
        (r is Ok) <==> !(from_source(*catalog, ctes@, *name) is Missing),
        r is Ok ==> r->Ok_0.alias@ == match alias {
            Some(a) => a@,
            None => name.name@,
        },
        from_source(*catalog, ctes@, *name) matches FromSource::Cte(i) ==> r is Ok && r->Ok_0.kind
            == BindingKind::Cte && r->Ok_0.columns@.len() == ctes@[i].columns@.len() && forall|k: int|
            0 <= k < ctes@[i].columns@.len() ==> #[trigger] r->Ok_0.columns@[k].name
                == ctes@[i].columns@[k].name,
        from_source(*catalog, ctes@, *name) matches FromSource::View(i) ==> r is Ok && r->Ok_0.kind
            == BindingKind::View && r->Ok_0.columns@.len() == catalog.views@[i].columns@.len()
            && forall|k: int|
            0 <= k < catalog.views@[i].columns@.len() ==> #[trigger] r->Ok_0.columns@[k].name
                == catalog.views@[i].columns@[k],
        from_source(*catalog, ctes@, *name) matches FromSource::Table(i) ==> r is Ok && r->Ok_0.kind
            == BindingKind::Table && binds_columns(r->Ok_0.columns@, catalog.tables@[i].columns@),
        r is Ok ==> binding_view(r->Ok_0) == (BindingView {
            alias: match alias {
                Some(a) => a@,
                None => name.name@,
            },
            columns: source_columns(*catalog, ctes@, *name),
            types: source_types(*catalog, ctes@, *name),
        }),
        r is Err ==> r->Err_0.kind == DiagnosticKind::TableNotFound && r->Err_0.span is None
            && r->Err_0.message@ == missing_table_message(name.name@),
        r is Err ==> r->Err_0.severity == Severity::Error && opt_view(r->Err_0.help) == suggestion_for(
            name.name@,
            known_relations(*catalog, ctes@),
        ),
{
    let a = match alias {
        Some(a) => String::from_str(a),
        None => name.name.clone(),
    };
    if let Some(i) = find_cte(ctes, name) {
        let b = Binding { alias: a, kind: BindingKind::Cte, columns: copy_columns(&ctes[i].columns) };
        assert(binding_view(b).columns =~= source_columns(*catalog, ctes@, *name));
        assert forall|k: int| 0 <= k < b.columns@.len() implies #[trigger] b.columns@[k].data_type
            == ctes@[i as int].columns@[k].data_type by {
            assert(b.columns@[k].name == ctes@[i as int].columns@[k].name);
        }
        assert(binding_view(b).types =~= source_types(*catalog, ctes@, *name));
        return Ok(b);
    }
    if let Some(v) = catalog.get_view(name) {
        let b = Binding { alias: a, kind: BindingKind::View, columns: view_columns(v) };
        assert(binding_view(b).columns =~= source_columns(*catalog, ctes@, *name));
        assert forall|k: int| 0 <= k < b.columns@.len() implies #[trigger] b.columns@[k].data_type
            == SqlType::Unknown by {
            assert(b.columns@[k].name == v.columns@[k]);
        }
        assert(binding_view(b).types =~= source_types(*catalog, ctes@, *name));
        return Ok(b);
    }
    if let Some(t) = catalog.get_table(name) {
        let b = Binding { alias: a, kind: BindingKind::Table, columns: table_columns(t) };
        assert(binding_view(b).columns =~= source_columns(*catalog, ctes@, *name));
        assert forall|k: int| 0 <= k < b.columns@.len() implies #[trigger] b.columns@[k].data_type
            == t.columns@[k].data_type by {
            assert(b.columns@[k].name == t.columns@[k].name);
        }
        assert(binding_view(b).types =~= source_types(*catalog, ctes@, *name));
        return Ok(b);
    }
    let mut m = String::from_str("Table '");
    m.append(name.name.as_str());
    m.append("' not found");
    let d = Diagnostic::error(DiagnosticKind::TableNotFound, m.as_str());
    let known = relation_names(catalog, ctes);
    match suggestion(name.name.as_str(), &known) {
        Some(h) => Err(d.with_help(h.as_str())),
        None => Err(d),
    }
}


/// A column reference `qualifier.name` (or just `name`) and where it stands.
#[derive(Debug)]
pub struct ColumnRef {
    pub qualifier: Option<String>,
    pub name: String,
    pub span: Option<Span>,
}

/// A `FROM` item: a relation name and its alias, if any.
#[derive(Debug)]
pub struct FromRef {
    pub name: QualifiedName,
    pub alias: Option<String>,
    pub span: Option<Span>,
}

/// A query block as the resolver sees it: its `FROM` items, the column
/// references of its expressions, and the subqueries nested in them.
#[derive(Debug)]
pub struct QueryModel {
    pub from: Vec<FromRef>,
    pub refs: Vec<ColumnRef>,
    /// Comparisons of a column with a value, such as `id = 42`.
    pub comparisons: Vec<Comparison>,
    pub subqueries: Vec<QueryModel>,
    /// Derived tables `(subquery) AS alias (names)` of its `FROM` list.
    pub derived: Vec<DerivedTable>,
}

/// A derived table: its alias, its column list (possibly empty), the
/// output columns of its subquery, and the subquery.
#[derive(Debug)]
pub struct DerivedTable {
    pub alias: String,
    pub names: Vec<String>,
    pub outputs: Vec<BoundColumn>,
    pub query: QueryModel,
    pub span: Option<Span>,
}

/// Whether a derived table's column list fits its subquery's outputs.
pub open spec fn derived_fits(d: DerivedTable) -> bool {
    d.names@.len() == 0 || d.names@.len() == d.outputs@.len()
}

/// What a derived table binds: its declared names, or its subquery's
/// output names, with the outputs' types; with unknown types when the
/// declared names do not fit.
pub open spec fn derived_view(d: DerivedTable) -> BindingView {
    BindingView {
        alias: d.alias@,
        columns: if d.names@.len() == 0 {
            d.outputs@.map_values(|c: BoundColumn| c.name@)
        } else {
            views(d.names@)
        },
        types: if derived_fits(d) {
            d.outputs@.map_values(|c: BoundColumn| c.data_type)
        } else {
            Seq::new(d.names@.len(), |i: int| SqlType::Unknown)
        },
    }
}

/// Frame `f` with the derived tables `ds` bound in order, unless their
/// alias is already bound.
pub open spec fn with_derived(f: Seq<BindingView>, ds: Seq<DerivedTable>) -> Seq<BindingView>
    decreases ds.len(),
{
    if ds.len() == 0 {
        f
    } else {
        let g = with_derived(f, ds.drop_last());
        let d = ds.last();
        if first_index(g, aliased(d.alias@)) >= 0 {
            g
        } else {
            g.push(derived_view(d))
        }
    }
}

/// A comparison of a column with a value of the given type.
#[derive(Debug)]
pub struct Comparison {
    pub column: ColumnRef,
    pub other: Compared,
}

/// What a column is compared with.
#[derive(Debug)]
pub enum Compared {
    /// A value of the given type, such as a literal.
    Value(ValueType),
    /// Another column.
    Column(ColumnRef),
}

/// The type of the column that `r` resolves to against `frames`, if it
/// resolves.
pub open spec fn ref_type(frames: Seq<Seq<BindingView>>, r: ColumnRef) -> Option<SqlType> {
    match ref_resolution(frames, r) {
        Resolution::Found { frame, binding, column } => type_at(frames, frame as int, binding as int, column as int),
        _ => None,
    }
}

/// The message for two columns whose types cannot be compared.
pub open spec fn incomparable_message(a: Seq<char>, b: Seq<char>) -> Seq<char> {
    "Type mismatch: column '"@ + a + "' cannot be compared with column '"@ + b + "'"@
}

/// Whether comparison `cmp` is a type mismatch against `frames`, and its
/// message: a value the column's type does not accept, or two resolved
/// columns of incompatible types.
pub open spec fn comparison_problem(frames: Seq<Seq<BindingView>>, cmp: Comparison) -> Option<Seq<char>> {
    match ref_type(frames, cmp.column) {
        Some(t) => match cmp.other {
            Compared::Value(v) => if !accepts(t, v) {
                Some(mismatch_message(cmp.column.name@))
            } else {
                None
            },
            Compared::Column(o) => match ref_type(frames, o) {
                Some(u) => if !compatible(t, u) {
                    Some(incomparable_message(cmp.column.name@, o.name@))
                } else {
                    None
                },
                None => None,
            },
        },
        None => None,
    }
}

/// The type of column `k` of binding `b` of frame `f`, if there is one.
pub open spec fn type_at(frames: Seq<Seq<BindingView>>, f: int, b: int, k: int) -> Option<SqlType> {
    if 0 <= f < frames.len() && 0 <= b < frames[f].len() && 0 <= k < frames[f][b].types.len() {
        Some(frames[f][b].types[k])
    } else {
        None
    }
}

/// The type mismatches of `cs` against `frames`: a comparison whose column
/// resolves to a column that cannot be compared with the value, at the
/// column's reference.
pub open spec fn comparison_issues(frames: Seq<Seq<BindingView>>, cs: Seq<Comparison>) -> Seq<Issue>
    decreases cs.len(),
{
    if cs.len() == 0 {
        Seq::empty()
    } else {
        let cmp = cs.last();
        comparison_issues(frames, cs.drop_last()) + match comparison_problem(frames, cmp) {
            Some(m) => seq![
                Issue {
                    kind: DiagnosticKind::TypeMismatch,
                    severity: Severity::Error,
                    span: cmp.column.span,
                    message: m,
                    help: None,
                },
            ],
            None => Seq::empty(),
        }
    }
}

/// A diagnostic as contracts see it: its kind, location and message.
pub struct Issue {
    pub kind: DiagnosticKind,
    pub severity: Severity,
    pub span: Option<Span>,
    pub message: Seq<char>,
    pub help: Option<Seq<char>>,
}

pub open spec fn issue_of(d: Diagnostic) -> Issue {
    Issue { kind: d.kind, severity: d.severity, span: d.span, message: d.message@, help: opt_view(d.help) }
}

pub open spec fn issues_of(ds: Seq<Diagnostic>) -> Seq<Issue> {
    ds.map_values(|d: Diagnostic| issue_of(d))
}

pub open spec fn opt_view(o: Option<String>) -> Option<Seq<char>> {
    match o {
        Some(s) => Some(s@),
        None => None,
    }
}

/// The name a `FROM` item is bound under.
pub open spec fn item_alias(it: FromRef) -> Seq<char> {
    match it.alias {
        Some(a) => a@,
        None => it.name.name@,
    }
}

/// The frame a block's `FROM` items make: one binding per item that names
/// a relation, in order, unless its alias is already bound there.
pub open spec fn block_frame(c: Catalog, ctes: Seq<CteDef>, items: Seq<FromRef>) -> Seq<BindingView>
    decreases items.len(),
{
    if items.len() == 0 {
        Seq::empty()
    } else {
        let f = block_frame(c, ctes, items.drop_last());
        let it = items.last();
        if from_source(c, ctes, it.name) is Missing || first_index(f, aliased(item_alias(it))) >= 0 {
            f
        } else {
            f.push(
                BindingView {
                    alias: item_alias(it),
                    columns: source_columns(c, ctes, it.name),
                    types: source_types(c, ctes, it.name),
                },
            )
        }
    }
}

/// How reference `r` resolves against `frames`.
pub open spec fn ref_resolution(frames: Seq<Seq<BindingView>>, r: ColumnRef) -> Resolution {
    match r.qualifier {
        Some(q) => resolve_qualified(frames, q@, r.name@),
        None => resolve_unqualified(frames, r.name@),
    }
}

/// The errors that `refs` give against `frames`, in order, each at its
/// reference and naming it.
pub open spec fn ref_issues(frames: Seq<Seq<BindingView>>, refs: Seq<ColumnRef>) -> Seq<Issue>
    decreases refs.len(),
{
    if refs.len() == 0 {
        Seq::empty()
    } else {
        let r = refs.last();
        let res = ref_resolution(frames, r);
        ref_issues(frames, refs.drop_last()) + match resolution_kind(res) {
            Some(k) => seq![
                Issue {
                    kind: k,
                    severity: Severity::Error,
                    span: r.span,
                    message: resolution_message(res, opt_view(r.qualifier), r.name@),
                    help: None,
                },
            ],
            None => Seq::empty(),
        }
    }
}

/// The errors that binding `items` gives: a table-not-found at each item
/// that names no CTE, view or table.
pub open spec fn from_issues(c: Catalog, ctes: Seq<CteDef>, items: Seq<FromRef>) -> Seq<Issue>
    decreases items.len(),
{
    if items.len() == 0 {
        Seq::empty()
    } else {
        let it = items.last();
        from_issues(c, ctes, items.drop_last()) + if from_source(c, ctes, it.name) is Missing {
            seq![
                Issue {
                    kind: DiagnosticKind::TableNotFound,
                    severity: Severity::Error,
                    span: it.span,
                    message: missing_table_message(it.name.name@),
                    help: suggestion_for(it.name.name@, known_relations(c, ctes)),
                },
            ]
        } else {
            Seq::empty()
        }
    }
}

/// The errors of query block `q` analyzed under the enclosing `frames`:
/// its `FROM` errors, then its reference errors, then those of each
/// subquery in order, all in the scope of the block's own frame.
pub open spec fn query_issues(frames: Seq<Seq<BindingView>>, c: Catalog, ctes: Seq<CteDef>, q: QueryModel) -> Seq<Issue>
    decreases q, q.subqueries@.len() + q.derived@.len() + 1,
{
    let inner = frames.push(with_derived(block_frame(c, ctes, q.from@), q.derived@));
    derived_issues(frames, c, ctes, q, q.derived@.len() as int) + from_issues(c, ctes, q.from@) + ref_issues(inner, q.refs@) + comparison_issues(inner, q.comparisons@)
        + subquery_issues(
        inner,
        c,
        ctes,
        q,
        q.subqueries@.len() as int,
    )
}

/// The errors of the first `n` subqueries of `q` under `inner`.
pub open spec fn subquery_issues(
    inner: Seq<Seq<BindingView>>,
    c: Catalog,
    ctes: Seq<CteDef>,
    q: QueryModel,
    n: int,
) -> Seq<Issue>
    decreases q, n,
    via subquery_issues_decreases
{
    if n <= 0 || n > q.subqueries@.len() {
        Seq::empty()
    } else {
        subquery_issues(inner, c, ctes, q, n - 1) + query_issues(inner, c, ctes, q.subqueries@[n - 1])
    }
}

/// The errors of the first `n` derived tables of `q` under the enclosing
/// `frames`: those of each subquery, then a count mismatch if its column
/// list does not fit.
pub open spec fn derived_issues(
    frames: Seq<Seq<BindingView>>,
    c: Catalog,
    ctes: Seq<CteDef>,
    q: QueryModel,
    n: int,
) -> Seq<Issue>
    decreases q, n,
    via derived_issues_decreases
{
    if n <= 0 || n > q.derived@.len() {
        Seq::empty()
    } else {
        let d = q.derived@[n - 1];
        derived_issues(frames, c, ctes, q, n - 1) + query_issues(frames, c, ctes, d.query) + if derived_fits(d) {
            Seq::empty()
        } else {
            seq![
                Issue {
                    kind: DiagnosticKind::ColumnCountMismatch,
                    severity: Severity::Error,
                    span: d.span,
                    message: arity_message(d.alias@),
                    help: None,
                },
            ]
        }
    }
}

#[via_fn]
proof fn derived_issues_decreases(
    frames: Seq<Seq<BindingView>>,
    c: Catalog,
    ctes: Seq<CteDef>,
    q: QueryModel,
    n: int,
) {
    if 0 < n <= q.derived@.len() {
        assert(decreases_to!(q => q.derived));
        vstd::std_specs::vec::axiom_vec_index_decreases(q.derived, n - 1);
        assert(decreases_to!(q.derived@[n - 1] => q.derived@[n - 1].query));
    }
}

#[via_fn]
proof fn subquery_issues_decreases(
    inner: Seq<Seq<BindingView>>,
    c: Catalog,
    ctes: Seq<CteDef>,
    q: QueryModel,
    n: int,
) {
    if 0 < n <= q.subqueries@.len() {
        assert(decreases_to!(q => q.subqueries));
        vstd::std_specs::vec::axiom_vec_index_decreases(q.subqueries, n - 1);
    }
}

proof fn lemma_stack_push(fs: Seq<Frame>, outer: Seq<Frame>, f: Seq<BindingView>)
    requires
        fs.len() == outer.len() + 1,
        fs.drop_last() == outer,
        frame_view(fs.last()) == f,
    ensures
        stack_view(fs) == stack_view(outer).push(f),
{
    assert(stack_view(fs) =~= stack_view(outer).push(f));
}

impl ScopeStack {
    /// Enter a query block: push a frame and bind its `FROM` items there, in
    /// order. Items that name nothing are reported where they stand and left
    /// unbound; an alias already bound in the frame is not bound again.
    pub fn enter_block(&mut self, catalog: &Catalog, ctes: &Vec<CteDef>, items: &Vec<FromRef>) -> (r: Vec<Diagnostic>)
        ensures
            issues_of(r@) == from_issues(*catalog, ctes@, items@),
            final(self).frames@.len() == old(self).frames@.len() + 1,
            final(self).frames@.drop_last() == old(self).frames@,
            stack_view(final(self).frames@) == stack_view(old(self).frames@).push(
                block_frame(*catalog, ctes@, items@),
            ),
    {
        self.push_frame();
        let ghost outer = old(self).frames@;
        let mut out: Vec<Diagnostic> = Vec::new();
        let mut i: usize = 0;
        proof {
            assert(items@.take(0) =~= Seq::<FromRef>::empty());
            assert(issues_of(out@) =~= Seq::<Issue>::empty());
            assert(frame_view(self.frames@.last()) =~= Seq::<BindingView>::empty());
        }
        while i < items.len()
            invariant
                i <= items.len(),
                self.frames@.len() == outer.len() + 1,
                self.frames@.drop_last() == outer,
                frame_view(self.frames@.last()) == block_frame(*catalog, ctes@, items@.take(i as int)),
                issues_of(out@) == from_issues(*catalog, ctes@, items@.take(i as int)),
            decreases items.len() - i,
        {
            proof {
                assert(items@.take(i + 1).drop_last() =~= items@.take(i as int));
                assert(items@.take(i + 1).last() == items@[i as int]);
            }
            let it = &items[i];
            let alias = match &it.alias {
                Some(a) => Some(a.as_str()),
                None => None,
            };
            let ghost before = self.frames@;
            match bind_from_item(catalog, ctes, &it.name, alias) {
                Ok(b) => {
                    let ghost bv = binding_view(b);
                    let added = self.add_binding(b);
                    proof {
                        if added {
                            assert(frame_view(self.frames@.last()) =~= frame_view(before.last()).push(bv));
                            assert(self.frames@.drop_last() =~= outer);
                        }
                    }
                    assert(issues_of(out@) =~= from_issues(*catalog, ctes@, items@.take(i + 1)));
                },
                Err(d) => {
                    let d = match it.span {
                        Some(s) => d.with_span(s),
                        None => d,
                    };
                    out.push(d);
                    assert(issues_of(out@) =~= from_issues(*catalog, ctes@, items@.take(i + 1)));
                },
            }
            i = i + 1;
        }
        proof {
            assert(items@.take(i as int) =~= items@);
            lemma_stack_push(self.frames@, outer, block_frame(*catalog, ctes@, items@));
        }
        out
    }

    /// Resolve each of `refs` in order; the errors, each located where its
    /// reference stands and naming it.
    pub fn check_refs(&self, refs: &Vec<ColumnRef>) -> (r: Vec<Diagnostic>)
        ensures
            issues_of(r@) == ref_issues(stack_view(self.frames@), refs@),
    {
        let mut out: Vec<Diagnostic> = Vec::new();
        let mut i: usize = 0;
        proof {
            assert(refs@.take(0) =~= Seq::<ColumnRef>::empty());
            assert(issues_of(out@) =~= Seq::<Issue>::empty());
        }
        while i < refs.len()
            invariant
                i <= refs.len(),
                issues_of(out@) == ref_issues(stack_view(self.frames@), refs@.take(i as int)),
            decreases refs.len() - i,
        {
            proof {
                assert(refs@.take(i + 1).drop_last() =~= refs@.take(i as int));
                assert(refs@.take(i + 1).last() == refs@[i as int]);
            }
            let rf = &refs[i];
            let (res, q) = match &rf.qualifier {
                Some(q) => (self.resolve_qualified_column(q.as_str(), rf.name.as_str()), Some(q.as_str())),
                None => (self.resolve_column(rf.name.as_str()), None),
            };
            proof {
                assert(res == ref_resolution(stack_view(self.frames@), *rf));
                assert(match q {
                    Some(s) => Some(s@),
                    None => None::<Seq<char>>,
                } == opt_view(rf.qualifier));
            }
            let ghost prev = issues_of(out@);
            match resolution_error(res, q, rf.name.as_str()) {
                Some(d) => {
                    let d = match rf.span {
                        Some(s) => d.with_span(s),
                        None => d,
                    };
                    assert(issue_of(d) == Issue {
                        kind: resolution_kind(res)->0,
                        severity: Severity::Error,
                        span: rf.span,
                        message: resolution_message(res, opt_view(rf.qualifier), rf.name@),
                        help: None,
                    });
                    out.push(d);
                    assert(issues_of(out@) =~= prev.push(issue_of(d)));
                },
                None => {},
            }
            assert(issues_of(out@) =~= ref_issues(stack_view(self.frames@), refs@.take(i + 1)));
            i = i + 1;
        }
        proof {
            assert(refs@.take(i as int) =~= refs@);
        }
        out
    }

    /// The type of the column that `r` resolves to, if it resolves.
    pub fn column_type(&self, r: &ColumnRef) -> (t: Option<&SqlType>)
        ensures
            match t {
                Some(x) => Some(*x),
                None => None,
            } == ref_type(stack_view(self.frames@), *r),
    {
        let ghost fs = stack_view(self.frames@);
        let res = match &r.qualifier {
            Some(q) => self.resolve_qualified_column(q.as_str(), r.name.as_str()),
            None => self.resolve_column(r.name.as_str()),
        };
        assert(res == ref_resolution(fs, *r));
        match res {
            Resolution::Found { frame, binding, column } => {
                if frame < self.frames.len() && binding < self.frames[frame].bindings.len() && column
                    < self.frames[frame].bindings[binding].columns.len() {
                    proof {
                        assert(fs[frame as int] == frame_view(self.frames@[frame as int]));
                        assert(fs[frame as int][binding as int] == binding_view(
                            self.frames@[frame as int].bindings@[binding as int],
                        ));
                    }
                    Some(&self.frames[frame].bindings[binding].columns[column].data_type)
                } else {
                    proof {
                        if frame < self.frames.len() && binding < self.frames[frame as int].bindings.len() {
                            assert(fs[frame as int] == frame_view(self.frames@[frame as int]));
                            assert(fs[frame as int][binding as int] == binding_view(
                                self.frames@[frame as int].bindings@[binding as int],
                            ));
                        }
                    }
                    None
                }
            },
            _ => None,
        }
    }

    /// Check each comparison of `cs` in order: a value the column cannot be
    /// compared with, or two columns of incompatible types, is a type
    /// mismatch at the (first) column.
    pub fn check_comparisons(&self, cs: &Vec<Comparison>) -> (r: Vec<Diagnostic>)
        ensures
            issues_of(r@) == comparison_issues(stack_view(self.frames@), cs@),
    {
        let ghost fs = stack_view(self.frames@);
        let mut out: Vec<Diagnostic> = Vec::new();
        let mut i: usize = 0;
        proof {
            assert(cs@.take(0) =~= Seq::<Comparison>::empty());
            assert(issues_of(out@) =~= Seq::<Issue>::empty());
        }
        while i < cs.len()
            invariant
                fs == stack_view(self.frames@),
                i <= cs.len(),
                issues_of(out@) == comparison_issues(fs, cs@.take(i as int)),
            decreases cs.len() - i,
        {
            proof {
                assert(cs@.take(i + 1).drop_last() =~= cs@.take(i as int));
                assert(cs@.take(i + 1).last() == cs@[i as int]);
            }
            let cmp = &cs[i];
            let ghost prev = issues_of(out@);
            let mut m = String::new();
            let problem = match self.column_type(&cmp.column) {
                Some(t) => match &cmp.other {
                    Compared::Value(v) => {
                        if !accepts_value(t, v) {
                            m.append("Type mismatch: column '");
                            m.append(cmp.column.name.as_str());
                            m.append("' cannot hold this value");
                            assert(m@ =~= mismatch_message(cmp.column.name@));
                            true
                        } else {
                            false
                        }
                    },
                    Compared::Column(o) => match self.column_type(o) {
                        Some(u) => {
                            if !t.is_compatible_with(u) {
                                m.append("Type mismatch: column '");
                                m.append(cmp.column.name.as_str());
                                m.append("' cannot be compared with column '");
                                m.append(o.name.as_str());
                                m.append("'");
                                assert(m@ =~= incomparable_message(cmp.column.name@, o.name@));
                                true
                            } else {
                                false
                            }
                        },
                        None => false,
                    },
                },
                None => false,
            };
            proof {
                assert(problem == (comparison_problem(fs, *cmp) is Some));
                if problem {
                    assert(m@ == comparison_problem(fs, *cmp)->0);
                }
            }
            if problem {
                let d = Diagnostic::error(DiagnosticKind::TypeMismatch, m.as_str());
                let d = match cmp.column.span {
                    Some(s) => d.with_span(s),
                    None => d,
                };
                out.push(d);
                assert(issues_of(out@) =~= prev.push(issue_of(d)));
            }
            assert(issues_of(out@) =~= comparison_issues(fs, cs@.take(i + 1)));
            i = i + 1;
        }
        proof {
            assert(cs@.take(i as int) =~= cs@);
        }
        out
    }

    /// Analyze query block `q` in the scope of the enclosing frames: bind
    /// its `FROM` items in a new frame, resolve its references, analyze its
    /// subqueries (which see this block's bindings), and leave the frame, so
    /// that nothing the block binds is visible afterwards.
    pub fn analyze_query(&mut self, catalog: &Catalog, ctes: &Vec<CteDef>, q: &QueryModel) -> (r: Vec<
        Diagnostic,
    >)
        ensures
            final(self).frames@ == old(self).frames@,
            issues_of(r@) == query_issues(stack_view(old(self).frames@), *catalog, ctes@, *q),
        decreases q,
    {
        let ghost outer = self.frames@;
        let ghost outer_view = stack_view(outer);
        let mut out: Vec<Diagnostic> = Vec::new();
        let mut k: usize = 0;
        proof {
            assert(issues_of(out@) =~= Seq::<Issue>::empty());
        }
        while k < q.derived.len()
            invariant
                k <= q.derived.len(),
                self.frames@ == outer,
                outer_view == stack_view(outer),
                issues_of(out@) == derived_issues(outer_view, *catalog, ctes@, *q, k as int),
            decreases q.derived.len() - k,
        {
            proof {
                assert(decreases_to!(q => q.derived));
                vstd::std_specs::vec::axiom_vec_index_decreases(q.derived, k as int);
                assert(decreases_to!(q.derived@[k as int] => q.derived@[k as int].query));
            }
            let d = &q.derived[k];
            let ghost prev = issues_of(out@);
            let mut sub = self.analyze_query(catalog, ctes, &d.query);
            let ghost subi = issues_of(sub@);
            out.append(&mut sub);
            assert(issues_of(out@) =~= prev + subi);
            if !(d.names.len() == 0 || d.names.len() == d.outputs.len()) {
                let mut m = String::from_str("Derived table '");
                m.append(d.alias.as_str());
                m.append("' names a different number of columns than its subquery returns");
                assert(m@ =~= arity_message(d.alias@));
                let e = Diagnostic::error(DiagnosticKind::ColumnCountMismatch, m.as_str());
                let e = match d.span {
                    Some(s) => e.with_span(s),
                    None => e,
                };
                let ghost mid = issues_of(out@);
                out.push(e);
                assert(issues_of(out@) =~= mid.push(issue_of(e)));
            }
            assert(issues_of(out@) =~= derived_issues(outer_view, *catalog, ctes@, *q, k + 1));
            k = k + 1;
        }
        let ghost derived_part = issues_of(out@);
        let mut from_part = self.enter_block(catalog, ctes, &q.from);
        let ghost entered = self.frames@;
        let ghost bf = block_frame(*catalog, ctes@, q.from@);
        let mut j: usize = 0;
        proof {
            assert(q.derived@.take(0) =~= Seq::<DerivedTable>::empty());
            assert(frame_view(self.frames@.last()) == bf) by {
                assert(stack_view(self.frames@).last() == frame_view(self.frames@.last()));
            }
        }
        while j < q.derived.len()
            invariant
                j <= q.derived.len(),
                self.frames@.len() == outer.len() + 1,
                self.frames@.drop_last() == outer,
                frame_view(self.frames@.last()) == with_derived(bf, q.derived@.take(j as int)),
            decreases q.derived.len() - j,
        {
            proof {
                assert(q.derived@.take(j + 1).drop_last() =~= q.derived@.take(j as int));
                assert(q.derived@.take(j + 1).last() == q.derived@[j as int]);
            }
            let d = &q.derived[j];
            let outs = copy_columns(&d.outputs);
            let ghost outs_v = outs@;
            match derived_binding(d.alias.as_str(), outs, &d.names) {
                Ok(b) => {
                    proof {
                        assert(binding_view(b).columns =~= derived_view(*d).columns);
                        assert(binding_view(b).types =~= derived_view(*d).types) by {
                            if d.names@.len() > 0 {
                                assert forall|i: int| 0 <= i < b.columns@.len() implies #[trigger] b.columns@[i].data_type
                                    == d.outputs@[i].data_type by {
                                    assert(renamed_outputs(b.columns@, d.names@, outs_v));
                                    assert(b.columns@[i].name@ == d.names@[i]@);
                                    assert(outs_v[i].name == d.outputs@[i].name);
                                }
                            } else {
                                assert(b.columns@ == outs_v);
                                assert forall|i: int| 0 <= i < b.columns@.len() implies #[trigger] b.columns@[i].data_type
                                    == d.outputs@[i].data_type by {
                                    assert(outs_v[i].name == d.outputs@[i].name);
                                }
                            }
                        }
                        if d.names@.len() > 0 {
                            assert forall|i: int| 0 <= i < b.columns@.len() implies #[trigger] b.columns@[i].name@
                                == d.names@[i]@ by {
                                assert(b.columns@[i].name@ == d.names@[i]@);
                            }
                        } else {
                            assert forall|i: int| 0 <= i < b.columns@.len() implies #[trigger] b.columns@[i].name
                                == d.outputs@[i].name by {
                                assert(outs_v[i].name == d.outputs@[i].name);
                            }
                        }
                        assert(binding_view(b) == derived_view(*d));
                    }
                    let ghost bv = binding_view(b);
                    let ghost before = self.frames@;
                    let added = self.add_binding(b);
                    proof {
                        if added {
                            assert(frame_view(self.frames@.last()) =~= frame_view(before.last()).push(bv));
                            assert(self.frames@.drop_last() =~= outer);
                        }
                    }
                },
                Err(_) => {
                    let b = declared_binding(d);
                    let ghost bv = binding_view(b);
                    let ghost before = self.frames@;
                    let added = self.add_binding(b);
                    proof {
                        if added {
                            assert(frame_view(self.frames@.last()) =~= frame_view(before.last()).push(bv));
                            assert(self.frames@.drop_last() =~= outer);
                        }
                    }
                },
            }
            j = j + 1;
        }
        proof {
            assert(q.derived@.take(j as int) =~= q.derived@);
            lemma_stack_push(self.frames@, outer, with_derived(bf, q.derived@));
        }
        let ghost inner = stack_view(self.frames@);
        let ghost inner_frames = self.frames@;
        let mut refs = self.check_refs(&q.refs);
        let mut cmps = self.check_comparisons(&q.comparisons);
        let ghost head = derived_part + issues_of(from_part@) + issues_of(refs@) + issues_of(cmps@);
        out.append(&mut from_part);
        out.append(&mut refs);
        out.append(&mut cmps);
        proof {
            assert(issues_of(out@) =~= head);
            assert(head + subquery_issues(inner, *catalog, ctes@, *q, 0) =~= head);
        }
        let mut i: usize = 0;
        while i < q.subqueries.len()
            invariant
                i <= q.subqueries.len(),
                self.frames@ == inner_frames,
                inner == stack_view(inner_frames),
                issues_of(out@) == head + subquery_issues(inner, *catalog, ctes@, *q, i as int),
            decreases q.subqueries.len() - i,
        {
            proof {
                assert(decreases_to!(q => q.subqueries));
                vstd::std_specs::vec::axiom_vec_index_decreases(q.subqueries, i as int);
            }
            let ghost prev = issues_of(out@);
            let mut d = self.analyze_query(catalog, ctes, &q.subqueries[i]);
            let ghost sub = issues_of(d@);
            out.append(&mut d);
            proof {
                assert(issues_of(out@) =~= prev + sub);
                assert(subquery_issues(inner, *catalog, ctes@, *q, i + 1) == subquery_issues(
                    inner,
                    *catalog,
                    ctes@,
                    *q,
                    i as int,
                ) + query_issues(inner, *catalog, ctes@, q.subqueries@[i as int]));
            }
            i = i + 1;
        }
        self.pop_frame();
        proof {
            assert(self.frames@ == inner_frames.drop_last());
        }
        out
    }
}

proof fn lemma_alias_unbound(frames: Seq<Seq<BindingView>>, a: Seq<char>)
    requires
        forall|f: int| 0 <= f < frames.len() ==> first_index(#[trigger] frames[f], aliased(a)) < 0,
    ensures
        nearest_with_alias(frames, a) == -1,
    decreases frames.len(),
{
    if frames.len() > 0 {
        assert(first_index(frames[frames.len() - 1], aliased(a)) < 0);
        lemma_alias_unbound(frames.drop_last(), a);
    }
}

/// Scope isolation: the references of a query block are resolved in the
/// enclosing frames and the block's own frame alone, never in a frame of
/// its subqueries. So a reference `a.c` of the block, where no enclosing
/// frame and nothing in the block's own `FROM` list binds `a`, is a
/// table-not-found error, whatever its subqueries bind.
pub proof fn lemma_scope_isolation(
    frames: Seq<Seq<BindingView>>,
    c: Catalog,
    ctes: Seq<CteDef>,
    q: QueryModel,
    r: ColumnRef,
)
    requires
        r.qualifier is Some,
        forall|f: int| 0 <= f < frames.len() ==> first_index(#[trigger] frames[f], aliased(r.qualifier->0@)) < 0,
        first_index(with_derived(block_frame(c, ctes, q.from@), q.derived@), aliased(r.qualifier->0@)) < 0,
    ensures
        ref_resolution(frames.push(with_derived(block_frame(c, ctes, q.from@), q.derived@)), r)
            == Resolution::TableNotFound,
{
    let inner = frames.push(with_derived(block_frame(c, ctes, q.from@), q.derived@));
    assert forall|f: int| 0 <= f < inner.len() implies first_index(#[trigger] inner[f], aliased(r.qualifier->0@)) < 0 by {
        if f < frames.len() {
            assert(inner[f] == frames[f]);
        }
    }
    lemma_alias_unbound(inner, r.qualifier->0@);
}

/// The body of a CTE as far as its columns go: a query's output items, or
/// a DML statement's `RETURNING` items.
#[derive(Debug)]
pub enum CteBody {
    Select(Vec<ProjectionItem>),
    Returning(Vec<ProjectionItem>),
}

/// The output items a CTE body exposes.
pub open spec fn cte_items(b: CteBody) -> Seq<ProjectionItem> {
    match b {
        CteBody::Select(items) => items@,
        CteBody::Returning(items) => items@,
    }
}

/// The CTE called `name` with body `body`: one column per output item
/// (named as a view's would be), of unknown type.
pub fn cte_def(name: &str, body: &CteBody) -> (r: CteDef)
    ensures
        r.name@ == name@,
        r.columns@.len() == cte_items(*body).len(),
        forall|i: int|
            0 <= i < r.columns@.len() ==> #[trigger] r.columns@[i].name@ == output_name(cte_items(*body)[i])
                && r.columns@[i].data_type == SqlType::Unknown,
{
    let items = match body {
        CteBody::Select(items) => items,
        CteBody::Returning(items) => items,
    };
    let names = infer_view_columns(items);
    let mut columns: Vec<BoundColumn> = Vec::new();
    let mut i: usize = 0;
    while i < names.len()
        invariant
            i <= names.len(),
            names@.len() == items@.len(),
            items@ == cte_items(*body),
            forall|k: int| 0 <= k < items@.len() ==> #[trigger] names@[k]@ == output_name(items@[k]),
            columns@.len() == i,
            forall|k: int|
                0 <= k < i ==> #[trigger] columns@[k].name@ == output_name(items@[k])
                    && columns@[k].data_type == SqlType::Unknown,
        decreases names.len() - i,
    {
        assert(names@[i as int]@ == output_name(items@[i as int]));
        columns.push(BoundColumn { name: names[i].clone(), data_type: SqlType::Unknown });
        i = i + 1;
    }
    CteDef { name: String::from_str(name), columns }
}

} // verus!
