//! Checks of DML statements against a table: the target columns of an
//! `INSERT` or `UPDATE`, the arity of each `VALUES` row, and the type of
//! each value.
use vstd::prelude::*;
use vstd::string::StringExecFns;
use crate::catalog::{column_index, find_column, named, table_index, Catalog, Column, QualifiedName, Table};
use crate::text::lemma_first_index_bounds;
use crate::diagnostic::{views, Diagnostic, DiagnosticKind, Severity};
use crate::suggest::{suggestion, suggestion_for};
use crate::types::{accepts, accepts_value, ValueType};
use crate::scope::{issue_of, issues_of, Issue};

verus! {

/// The message for a target column `n` that table `t` lacks.
pub open spec fn unknown_column_message(n: Seq<char>, t: Seq<char>) -> Seq<char> {
    "Column '"@ + n + "' not found in table '"@ + t + "'"@
}

/// The message for a value that column `c` cannot hold.
pub open spec fn mismatch_message(c: Seq<char>) -> Seq<char> {
    "Type mismatch: column '"@ + c + "' cannot hold this value"@
}

/// The message for a `VALUES` row of the wrong arity.
pub open spec fn count_mismatch_message() -> Seq<char> {
    "VALUES row has a different number of values than target columns"@
}

pub open spec fn issue(kind: DiagnosticKind, message: Seq<char>, help: Option<Seq<char>>) -> Issue {
    Issue { kind, severity: Severity::Error, span: None, message, help }
}

/// The names of `cols`, in order.
pub open spec fn column_names_of(cols: Seq<Column>) -> Seq<Seq<char>> {
    cols.map_values(|c: Column| c.name@)
}

/// The names of the tables of `c`, in order.
pub open spec fn table_names(c: Catalog) -> Seq<Seq<char>> {
    c.tables@.map_values(|t: Table| t.name.name@)
}

/// The table position of each target column, none for a name the table
/// lacks; an empty list of names targets every column in order.
pub open spec fn target_positions(cols: Seq<Column>, names: Seq<Seq<char>>) -> Seq<Option<int>> {
    if names.len() == 0 {
        Seq::new(cols.len(), |i: int| Some(i))
    } else {
        Seq::new(
            names.len(),
            |i: int|
                if column_index(cols, names[i]) >= 0 {
                    Some(column_index(cols, names[i]))
                } else {
                    None
                },
        )
    }
}

/// One column-not-found issue per target name that the table lacks.
pub open spec fn unknown_column_issues(cols: Seq<Column>, tname: Seq<char>, names: Seq<Seq<char>>) -> Seq<
    Issue,
>
    decreases names.len(),
{
    if names.len() == 0 {
        Seq::empty()
    } else {
        unknown_column_issues(cols, tname, names.drop_last()) + if column_index(cols, names.last()) < 0 {
            seq![
                issue(
                    DiagnosticKind::ColumnNotFound,
                    unknown_column_message(names.last(), tname),
                    suggestion_for(names.last(), column_names_of(cols)),
                ),
            ]
        } else {
            Seq::empty()
        }
    }
}

/// One type-mismatch issue per value among the first `n` of `row` that its
/// (known) target column cannot hold.
pub open spec fn value_issues(
    cols: Seq<Column>,
    targets: Seq<Option<int>>,
    row: Seq<ValueType>,
    n: int,
) -> Seq<Issue>
    decreases n,
{
    if n <= 0 {
        Seq::empty()
    } else {
        value_issues(cols, targets, row, n - 1) + if targets[n - 1] is Some && !accepts(
            cols[targets[n - 1]->0].data_type,
            row[n - 1],
        ) {
            seq![issue(DiagnosticKind::TypeMismatch, mismatch_message(cols[targets[n - 1]->0].name@), None)]
        } else {
            Seq::empty()
        }
    }
}

/// The issues of one `VALUES` row: a count mismatch if its arity differs
/// from the number of targets, else its type mismatches.
pub open spec fn row_issues(cols: Seq<Column>, targets: Seq<Option<int>>, row: Seq<ValueType>) -> Seq<
    Issue,
> {
    if row.len() != targets.len() {
        seq![issue(DiagnosticKind::ColumnCountMismatch, count_mismatch_message(), None)]
    } else {
        value_issues(cols, targets, row, row.len() as int)
    }
}

pub open spec fn rows_issues(
    cols: Seq<Column>,
    targets: Seq<Option<int>>,
    rows: Seq<Vec<ValueType>>,
) -> Seq<Issue>
    decreases rows.len(),
{
    if rows.len() == 0 {
        Seq::empty()
    } else {
        rows_issues(cols, targets, rows.drop_last()) + row_issues(cols, targets, rows.last()@)
    }
}

/// What an `INSERT INTO t (names) VALUES rows` reports, in order: unknown
/// target columns, then each row's issues.
pub open spec fn insert_issues(
    cols: Seq<Column>,
    tname: Seq<char>,
    names: Seq<Seq<char>>,
    rows: Seq<Vec<ValueType>>,
) -> Seq<Issue> {
    unknown_column_issues(cols, tname, names) + rows_issues(cols, target_positions(cols, names), rows)
}

fn count_mismatch_literal() -> (r: &'static str)
    ensures
        r@ == count_mismatch_message(),
{
    "VALUES row has a different number of values than target columns"
}

fn column_names(table: &Table) -> (r: Vec<String>)
    ensures
        views(r@) == column_names_of(table.columns@),
{
    let mut out: Vec<String> = Vec::new();
    let mut i: usize = 0;
    while i < table.columns.len()
        invariant
            i <= table.columns.len(),
            out@.len() == i,
            forall|k: int| 0 <= k < i ==> #[trigger] out@[k]@ == table.columns@[k].name@,
        decreases table.columns.len() - i,
    {
        out.push(table.columns[i].name.clone());
        i = i + 1;
    }
    assert(views(out@) =~= column_names_of(table.columns@));
    out
}

fn push_issue(out: &mut Vec<Diagnostic>, d: Diagnostic)
    ensures
        issues_of(final(out)@) == issues_of(old(out)@) + seq![issue_of(d)],
{
    let ghost before = out@;
    out.push(d);
    proof {
        assert(issues_of(out@) =~= issues_of(before) + seq![issue_of(d)]);
    }
}

/// The target column positions of an insert into `table`.
fn targets_of(table: &Table, names: &Vec<String>, out: &mut Vec<Diagnostic>) -> (r: Vec<Option<usize>>)
    ensures
        r@.len() == target_positions(table.columns@, views(names@)).len(),
        forall|i: int|
            0 <= i < r@.len() ==> (#[trigger] r@[i] is Some <==> target_positions(
                table.columns@,
                views(names@),
            )[i] is Some) && (r@[i] is Some ==> r@[i]->0 == target_positions(
                table.columns@,
                views(names@),
            )[i]->0),
        issues_of(final(out)@) == issues_of(old(out)@) + unknown_column_issues(table.columns@, table.name.name@, views(names@)),
{
    let mut r: Vec<Option<usize>> = Vec::new();
    if names.len() == 0 {
        let mut i: usize = 0;
        while i < table.columns.len()
            invariant
                i <= table.columns.len(),
                r@.len() == i,
                forall|k: int| 0 <= k < i ==> #[trigger] r@[k] == Some(k as usize),
                issues_of(out@) == issues_of(old(out)@),
            decreases table.columns.len() - i,
        {
            r.push(Some(i));
            i = i + 1;
        }
        assert(views(names@).len() == 0);
        assert(issues_of(out@) =~= issues_of(old(out)@) + unknown_column_issues(table.columns@, table.name.name@, views(names@)));
        return r;
    }
    let known = column_names(table);
    let mut i: usize = 0;
    proof {
        assert(views(names@).take(0) =~= Seq::<Seq<char>>::empty());
        assert(issues_of(out@) =~= issues_of(old(out)@) + unknown_column_issues(table.columns@, table.name.name@, views(names@).take(0)));
    }
    while i < names.len()
        invariant
            names@.len() > 0,
            i <= names.len(),
            r@.len() == i,
            forall|k: int|
                0 <= k < i ==> (#[trigger] r@[k] is Some <==> target_positions(
                    table.columns@,
                    views(names@),
                )[k] is Some) && (r@[k] is Some ==> r@[k]->0 == target_positions(
                    table.columns@,
                    views(names@),
                )[k]->0),
            issues_of(out@) == issues_of(old(out)@) + unknown_column_issues(table.columns@, table.name.name@, views(names@).take(i as int)),
            views(known@) == column_names_of(table.columns@),
        decreases names.len() - i,
    {
        proof {
            assert(views(names@).take(i + 1).drop_last() =~= views(names@).take(i as int));
            assert(views(names@).take(i + 1).last() == names@[i as int]@);
        }
        let ghost before = issues_of(out@);
        match find_column(&table.columns, names[i].as_str()) {
            Some(p) => {
                r.push(Some(p));
                assert(issues_of(out@) =~= issues_of(old(out)@) + unknown_column_issues(table.columns@, table.name.name@, views(names@).take(i + 1)));
            },
            None => {
                let mut m = String::from_str("Column '");
                m.append(names[i].as_str());
                m.append("' not found in table '");
                m.append(table.name.name.as_str());
                m.append("'");
                assert(m@ =~= unknown_column_message(names@[i as int]@, table.name.name@));
                let d = Diagnostic::error(DiagnosticKind::ColumnNotFound, m.as_str());
                let d = match suggestion(names[i].as_str(), &known) {
                    Some(h) => d.with_help(h.as_str()),
                    None => d,
                };
                push_issue(out, d);
                r.push(None);
                assert(issues_of(out@) =~= issues_of(old(out)@) + unknown_column_issues(table.columns@, table.name.name@, views(names@).take(i + 1)));
            },
        }
        i = i + 1;
    }
    proof {
        assert(views(names@).take(i as int) =~= views(names@));
    }
    r
}

/// Check `INSERT INTO table (names) VALUES rows` (an empty `names` targets
/// every column): unknown columns, rows of the wrong arity, and values that
/// their column cannot hold, in that order.
pub fn check_insert(table: &Table, names: &Vec<String>, rows: &Vec<Vec<ValueType>>) -> (r: Vec<Diagnostic>)
    ensures
        issues_of(r@) == insert_issues(table.columns@, table.name.name@, views(names@), rows@),
{
    let mut out: Vec<Diagnostic> = Vec::new();
    proof {
        assert(issues_of(out@) =~= Seq::<Issue>::empty());
    }
    let targets = targets_of(table, names, &mut out);
    let ghost tp = target_positions(table.columns@, views(names@));
    let ghost head = issues_of(out@);
    let mut ri: usize = 0;
    proof {
        assert forall|i: int| 0 <= i < tp.len() && #[trigger] tp[i] is Some implies 0 <= tp[i]->0
            < table.columns@.len() by {
            if views(names@).len() > 0 {
                lemma_first_index_bounds(table.columns@, named(views(names@)[i]));
            }
        }
        assert(rows@.take(0) =~= Seq::<Vec<ValueType>>::empty());
        assert(issues_of(out@) =~= head + rows_issues(table.columns@, tp, rows@.take(0)));
    }
    while ri < rows.len()
        invariant
            ri <= rows.len(),
            targets@.len() == tp.len(),
            forall|i: int|
                0 <= i < targets@.len() ==> (#[trigger] targets@[i] is Some <==> tp[i] is Some) && (
                targets@[i] is Some ==> targets@[i]->0 == tp[i]->0),
            forall|i: int| 0 <= i < tp.len() ==> (#[trigger] tp[i] is Some ==> 0 <= tp[i]->0 < table.columns@.len()),
            issues_of(out@) == head + rows_issues(table.columns@, tp, rows@.take(ri as int)),
            head == unknown_column_issues(table.columns@, table.name.name@, views(names@)),
            tp == target_positions(table.columns@, views(names@)),
        decreases rows.len() - ri,
    {
        proof {
            assert(rows@.take(ri + 1).drop_last() =~= rows@.take(ri as int));
            assert(rows@.take(ri + 1).last() == rows@[ri as int]);
        }
        let row = &rows[ri];
        let ghost mid = issues_of(out@);
        if row.len() != targets.len() {
            push_issue(
                &mut out,
                Diagnostic::error(DiagnosticKind::ColumnCountMismatch, count_mismatch_literal()),
            );
        } else {
            let mut j: usize = 0;
            while j < row.len()
                invariant
                    j <= row.len(),
                    row@.len() == targets@.len(),
                    targets@.len() == tp.len(),
                    forall|i: int|
                        0 <= i < targets@.len() ==> (#[trigger] targets@[i] is Some <==> tp[i] is Some) && (
                        targets@[i] is Some ==> targets@[i]->0 == tp[i]->0),
                    forall|i: int| 0 <= i < tp.len() ==> (#[trigger] tp[i] is Some ==> 0 <= tp[i]->0 < table.columns@.len()),
                    issues_of(out@) == mid + value_issues(table.columns@, tp, row@, j as int),
                decreases row.len() - j,
            {
                match targets[j] {
                    Some(p) => {
                        let c = &table.columns[p];
                        if !accepts_value(&c.data_type, &row[j]) {
                            let mut m = String::from_str("Type mismatch: column '");
                            m.append(c.name.as_str());
                            m.append("' cannot hold this value");
                            assert(m@ =~= mismatch_message(c.name@));
                            push_issue(&mut out, Diagnostic::error(DiagnosticKind::TypeMismatch, m.as_str()));
                        }
                    },
                    None => {},
                }
                proof {
                    assert(issues_of(out@) =~= mid + value_issues(table.columns@, tp, row@, j + 1));
                }
                j = j + 1;
            }
        }
        proof {
            assert(issues_of(out@) =~= head + rows_issues(table.columns@, tp, rows@.take(ri + 1)));
        }
        ri = ri + 1;
    }
    proof {
        assert(rows@.take(ri as int) =~= rows@);
    }
    out
}


/// One `SET column = value` of an `UPDATE`, with the type of the value.
#[derive(Debug)]
pub struct Assignment {
    pub column: String,
    pub value: ValueType,
}

/// What `UPDATE t SET sets` reports, in order: per assignment, a missing
/// column, or a value that the column cannot hold.
pub open spec fn update_issues(cols: Seq<Column>, tname: Seq<char>, sets: Seq<Assignment>) -> Seq<Issue>
    decreases sets.len(),
{
    if sets.len() == 0 {
        Seq::empty()
    } else {
        let a = sets.last();
        let k = column_index(cols, a.column@);
        update_issues(cols, tname, sets.drop_last()) + if k < 0 {
            seq![
                issue(
                    DiagnosticKind::ColumnNotFound,
                    unknown_column_message(a.column@, tname),
                    suggestion_for(a.column@, column_names_of(cols)),
                ),
            ]
        } else if !accepts(cols[k].data_type, a.value) {
            seq![issue(DiagnosticKind::TypeMismatch, mismatch_message(cols[k].name@), None)]
        } else {
            Seq::empty()
        }
    }
}

/// Check the assignments of `UPDATE table SET ...`.
pub fn check_update(table: &Table, sets: &Vec<Assignment>) -> (r: Vec<Diagnostic>)
    ensures
        issues_of(r@) == update_issues(table.columns@, table.name.name@, sets@),
{
    let mut out: Vec<Diagnostic> = Vec::new();
    let known = column_names(table);
    let mut i: usize = 0;
    proof {
        assert(sets@.take(0) =~= Seq::<Assignment>::empty());
        assert(issues_of(out@) =~= Seq::<Issue>::empty());
    }
    while i < sets.len()
        invariant
            i <= sets.len(),
            issues_of(out@) == update_issues(table.columns@, table.name.name@, sets@.take(i as int)),
            views(known@) == column_names_of(table.columns@),
        decreases sets.len() - i,
    {
        proof {
            assert(sets@.take(i + 1).drop_last() =~= sets@.take(i as int));
            assert(sets@.take(i + 1).last() == sets@[i as int]);
        }
        let a = &sets[i];
        match find_column(&table.columns, a.column.as_str()) {
            None => {
                let mut m = String::from_str("Column '");
                m.append(a.column.as_str());
                m.append("' not found in table '");
                m.append(table.name.name.as_str());
                m.append("'");
                assert(m@ =~= unknown_column_message(a.column@, table.name.name@));
                let d = Diagnostic::error(DiagnosticKind::ColumnNotFound, m.as_str());
                let d = match suggestion(a.column.as_str(), &known) {
                    Some(h) => d.with_help(h.as_str()),
                    None => d,
                };
                push_issue(&mut out, d);
            },
            Some(k) => {
                let c = &table.columns[k];
                if !accepts_value(&c.data_type, &a.value) {
                    let mut m = String::from_str("Type mismatch: column '");
                    m.append(c.name.as_str());
                    m.append("' cannot hold this value");
                    assert(m@ =~= mismatch_message(c.name@));
                    push_issue(&mut out, Diagnostic::error(DiagnosticKind::TypeMismatch, m.as_str()));
                }
            },
        }
        proof {
            assert(issues_of(out@) =~= update_issues(table.columns@, table.name.name@, sets@.take(i + 1)));
        }
        i = i + 1;
    }
    proof {
        assert(sets@.take(i as int) =~= sets@);
    }
    out
}


/// The table that a DML statement targets, or a table-not-found error with
/// the nearest table name as help.
pub fn target_table<'a>(catalog: &'a Catalog, name: &QualifiedName) -> (r: Result<&'a Table, Diagnostic>)
    ensures
        r is Ok <==> table_index(*catalog, *name) >= 0,
        r is Ok ==> *r->Ok_0 == catalog.tables@[table_index(*catalog, *name)],
        r is Err ==> r->Err_0.kind == DiagnosticKind::TableNotFound && r->Err_0.span is None
            && r->Err_0.message@ == crate::scope::missing_table_message(name.name@),
        r is Err ==> r->Err_0.severity == Severity::Error && crate::scope::opt_view(r->Err_0.help)
            == suggestion_for(name.name@, table_names(*catalog)),
{
    match catalog.get_table(name) {
        Some(t) => Ok(t),
        None => {
            let mut m = String::from_str("Table '");
            m.append(name.name.as_str());
            m.append("' not found");
            let d = Diagnostic::error(DiagnosticKind::TableNotFound, m.as_str());
            let mut known: Vec<String> = Vec::new();
            let mut i: usize = 0;
            while i < catalog.tables.len()
                invariant
                    i <= catalog.tables.len(),
                    known@.len() == i,
                    forall|k: int| 0 <= k < i ==> #[trigger] known@[k]@ == catalog.tables@[k].name.name@,
                decreases catalog.tables.len() - i,
            {
                known.push(catalog.tables[i].name.name.clone());
                i = i + 1;
            }
            assert(views(known@) =~= table_names(*catalog));
            match suggestion(name.name.as_str(), &known) {
                Some(h) => Err(d.with_help(h.as_str())),
                None => Err(d),
            }
        },
    }
}

} // verus!
