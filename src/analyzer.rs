//! Analysis of whole statements: queries, `INSERT`, `UPDATE` and `DELETE`,
//! and of a text of statements with its inline directives.
use vstd::prelude::*;
use crate::catalog::{table_index, Catalog, QualifiedName};
use crate::checks::{check_insert, check_update, insert_issues, table_names, target_table, update_issues, Assignment};
use crate::suggest::suggestion_for;
use crate::diagnostic::{code_of, views, Diagnostic, DiagnosticKind, Severity, Span};
use crate::dialect::SqlDialect;
use crate::directives::{hides, suppressed, unsuppressed, Disabled, InlineDirectives, directives_of};
use crate::parse::{parse_error_text, sql_parses, syntax_error};
use crate::scope::{
    block_frame, from_issues, issue_of, issues_of, opt_view, missing_table_message, query_issues, ref_issues,
    ColumnRef, CteDef, FromRef, Issue, QueryModel, ScopeStack,
};
use crate::types::ValueType;

verus! {

/// A statement as the analyzer sees it.
#[derive(Debug)]
pub enum Stmt {
    /// A query with the CTEs of its `WITH` clause.
    Query { ctes: Vec<CteDef>, query: QueryModel },
    /// `INSERT INTO table (columns) VALUES rows`; no columns means all.
    Insert { table: QualifiedName, span: Option<Span>, columns: Vec<String>, rows: Vec<Vec<ValueType>> },
    /// `UPDATE table SET sets WHERE ...` with the references of the filter.
    Update { table: QualifiedName, span: Option<Span>, sets: Vec<Assignment>, filter: Vec<ColumnRef> },
    /// `DELETE FROM table WHERE ...` with the references of the filter.
    Delete { table: QualifiedName, span: Option<Span>, filter: Vec<ColumnRef> },
}

/// `is` located at `span`, when it is known.
pub open spec fn at(is: Seq<Issue>, span: Option<Span>) -> Seq<Issue> {
    Seq::new(
        is.len(),
        |i: int|
            Issue {
                kind: is[i].kind,
                severity: is[i].severity,
                span: match span {
                    Some(_) => span,
                    None => is[i].span,
                },
                message: is[i].message,
                help: is[i].help,
            },
    )
}

/// The errors of a DML filter: the target is bound alone in a frame, then
/// the filter's references are resolved there.
pub open spec fn filter_issues(c: Catalog, table: QualifiedName, span: Option<Span>, filter: Seq<ColumnRef>) -> Seq<Issue> {
    let items = seq![FromRef { name: table, alias: None, span }];
    from_issues(c, Seq::empty(), items) + ref_issues(seq![block_frame(c, Seq::empty(), items)], filter)
}

/// The errors of statement `st` against catalog `c`.
pub open spec fn statement_issues(c: Catalog, st: Stmt) -> Seq<Issue> {
    match st {
        Stmt::Query { ctes, query } => query_issues(Seq::empty(), c, ctes@, query),
        Stmt::Insert { table, span, columns, rows } => {
            let i = table_index(c, table);
            if i < 0 {
                seq![
                    Issue {
                        kind: DiagnosticKind::TableNotFound,
                        severity: Severity::Error,
                        span,
                        message: missing_table_message(table.name@),
                        help: suggestion_for(table.name@, table_names(c)),
                    },
                ]
            } else {
                at(insert_issues(c.tables@[i].columns@, c.tables@[i].name.name@, views(columns@), rows@), span)
            }
        },
        Stmt::Update { table, span, sets, filter } => {
            let i = table_index(c, table);
            filter_issues(c, table, span, filter@) + if i < 0 {
                Seq::empty()
            } else {
                at(update_issues(c.tables@[i].columns@, c.tables@[i].name.name@, sets@), span)
            }
        },
        Stmt::Delete { table, span, filter } => filter_issues(c, table, span, filter@),
    }
}

/// The errors of `stmts`, statement by statement.
pub open spec fn statements_issues(c: Catalog, stmts: Seq<Stmt>) -> Seq<Issue>
    decreases stmts.len(),
{
    if stmts.len() == 0 {
        Seq::empty()
    } else {
        statements_issues(c, stmts.drop_last()) + statement_issues(c, stmts.last())
    }
}

fn copy_name(q: &QualifiedName) -> (r: QualifiedName)
    ensures
        r == *q,
{
    QualifiedName {
        schema: match &q.schema {
            Some(s) => Some(s.clone()),
            None => None,
        },
        name: q.name.clone(),
    }
}

/// `ds` located at `span`.
fn locate(ds: Vec<Diagnostic>, span: Option<Span>) -> (r: Vec<Diagnostic>)
    ensures
        issues_of(r@) == at(issues_of(ds@), span),
{
    let ghost all = issues_of(ds@);
    let ghost orig = ds@;
    let mut out: Vec<Diagnostic> = Vec::new();
    for d in it: ds
        invariant
            it.seq() == orig,
            all == issues_of(orig),
            issues_of(out@) == at(all.take(it.index() as int), span),
    {
        let ghost k = it.index() as int;
        proof {
            assert(orig[k] == d);
            assert(all[k] == issue_of(d));
            assert(all.take(k + 1).drop_last() =~= all.take(k));
        }
        let d = match span {
            Some(s) => d.with_span(s),
            None => d,
        };
        let ghost before = issues_of(out@);
        out.push(d);
        proof {
            assert(issues_of(out@) =~= before.push(issue_of(d)));
            assert(issues_of(out@) =~= at(all.take(k + 1), span));
        }
    }
    proof {
        assert(all.take(all.len() as int) =~= all);
    }
    out
}

/// The errors of a DML filter.
fn check_filter(catalog: &Catalog, table: &QualifiedName, span: Option<Span>, filter: &Vec<ColumnRef>) -> (r: Vec<
    Diagnostic,
>)
    ensures
        issues_of(r@) == filter_issues(*catalog, *table, span, filter@),
{
    let items = vec![FromRef { name: copy_name(table), alias: None, span }];
    let ctes: Vec<CteDef> = Vec::new();
    let mut scope = ScopeStack::new();
    assert(scope.frames@ =~= Seq::<crate::scope::Frame>::empty());
    let mut out = scope.enter_block(catalog, &ctes, &items);
    proof {
        assert(items@ =~= seq![FromRef { name: *table, alias: None, span }]);
        assert(ctes@ =~= Seq::<CteDef>::empty());
        assert(crate::scope::stack_view(Seq::<crate::scope::Frame>::empty()) =~= Seq::empty());
        assert(seq![block_frame(*catalog, Seq::empty(), items@)] =~= Seq::<Seq<crate::scope::BindingView>>::empty().push(
            block_frame(*catalog, Seq::empty(), items@),
        ));
    }
    let ghost head = issues_of(out@);
    let mut refs = scope.check_refs(filter);
    let ghost tail = issues_of(refs@);
    out.append(&mut refs);
    proof {
        assert(issues_of(out@) =~= head + tail);
        assert(crate::scope::stack_view(scope.frames@) =~= seq![block_frame(*catalog, Seq::empty(), items@)]);
    }
    out
}

/// The errors of one statement.
pub fn analyze_statement(catalog: &Catalog, st: &Stmt) -> (r: Vec<Diagnostic>)
    ensures
        issues_of(r@) == statement_issues(*catalog, *st),
{
    match st {
        Stmt::Query { ctes, query } => {
            let mut scope = ScopeStack::new();
            proof {
                assert(crate::scope::stack_view(scope.frames@) =~= Seq::empty());
            }
            scope.analyze_query(catalog, ctes, query)
        },
        Stmt::Insert { table, span, columns, rows } => match target_table(catalog, table) {
            Err(d) => {
                let d = match span {
                    Some(s) => d.with_span(*s),
                    None => d,
                };
                let out = vec![d];
                assert(issues_of(out@) =~= seq![issue_of(d)]);
                out
            },
            Ok(t) => {
                let ds = check_insert(t, columns, rows);
                locate(ds, *span)
            },
        },
        Stmt::Update { table, span, sets, filter } => {
            let mut out = check_filter(catalog, table, *span, filter);
            let ghost head = issues_of(out@);
            match target_table(catalog, table) {
                Err(_) => {
                    assert(head + Seq::<Issue>::empty() =~= head);
                },
                Ok(t) => {
                    let ds = check_update(t, sets);
                    let mut located = locate(ds, *span);
                    let ghost tail = issues_of(located@);
                    out.append(&mut located);
                    assert(issues_of(out@) =~= head + tail);
                },
            }
            out
        },
        Stmt::Delete { table, span, filter } => check_filter(catalog, table, *span, filter),
    }
}

/// The errors of `stmts`, statement by statement.
pub fn analyze_statements(catalog: &Catalog, stmts: &Vec<Stmt>) -> (r: Vec<Diagnostic>)
    ensures
        issues_of(r@) == statements_issues(*catalog, stmts@),
{
    let mut out: Vec<Diagnostic> = Vec::new();
    let mut i: usize = 0;
    proof {
        assert(stmts@.take(0) =~= Seq::<Stmt>::empty());
        assert(issues_of(out@) =~= Seq::<Issue>::empty());
    }
    while i < stmts.len()
        invariant
            i <= stmts.len(),
            issues_of(out@) == statements_issues(*catalog, stmts@.take(i as int)),
        decreases stmts.len() - i,
    {
        proof {
            assert(stmts@.take(i + 1).drop_last() =~= stmts@.take(i as int));
            assert(stmts@.take(i + 1).last() == stmts@[i as int]);
        }
        let ghost prev = issues_of(out@);
        let mut d = analyze_statement(catalog, &stmts[i]);
        let ghost more = issues_of(d@);
        out.append(&mut d);
        assert(issues_of(out@) =~= prev + more);
        i = i + 1;
    }
    proof {
        assert(stmts@.take(i as int) =~= stmts@);
    }
    out
}

/// Whether `m` suppresses an issue; one without a location never is.
pub open spec fn hides_issue(m: Map<int, Disabled>, i: Issue) -> bool {
    i.span is Some && suppressed(m, code_of(i.kind), i.span->0.line as int)
}

/// The issues of `is` that `m` does not suppress, in order.
pub open spec fn visible(is: Seq<Issue>, m: Map<int, Disabled>) -> Seq<Issue> {
    is.filter(|i: Issue| !hides_issue(m, i))
}

proof fn lemma_issues_unsuppressed(ds: Seq<Diagnostic>, m: Map<int, Disabled>)
    ensures
        issues_of(unsuppressed(ds, m)) == visible(issues_of(ds), m),
    decreases ds.len(),
{
    reveal(Seq::filter);
    if ds.len() > 0 {
        lemma_issues_unsuppressed(ds.drop_last(), m);
        assert(issues_of(ds).drop_last() =~= issues_of(ds.drop_last()));
        assert(hides(m, ds.last()) == hides_issue(m, issue_of(ds.last())));
        if !hides(m, ds.last()) {
            assert(issues_of(unsuppressed(ds, m)) =~= issues_of(unsuppressed(ds.drop_last(), m)).push(
                issue_of(ds.last()),
            ));
        }
    }
}

/// The single error of a text that does not parse.
pub open spec fn parse_issue(dialect: SqlDialect, sql: Seq<char>) -> Issue {
    Issue {
        kind: DiagnosticKind::ParseError,
        severity: Severity::Error,
        span: None,
        message: parse_error_text(dialect, sql),
        help: None,
    }
}

/// What `analyze` reports for `sql` with statements `stmts`, as issues.
pub open spec fn analysis(c: Catalog, dialect: SqlDialect, sql: Seq<char>, stmts: Seq<Stmt>) -> Seq<Issue> {
    if sql_parses(dialect, sql) {
        visible(statements_issues(c, stmts), directives_of(sql))
    } else {
        seq![parse_issue(dialect, sql)]
    }
}

/// Analyze SQL text whose statements, as the dialect's parser reads them,
/// are `stmts`: one parse error if the text does not parse; otherwise the
/// errors of its statements, without those its inline directives suppress.
pub fn analyze(catalog: &Catalog, dialect: SqlDialect, sql: &str, stmts: &Vec<Stmt>) -> (r: Vec<Diagnostic>)
    ensures
        issues_of(r@) == analysis(*catalog, dialect, sql@, stmts@),
        !sql_parses(dialect, sql@) ==> issues_of(r@) == seq![parse_issue(dialect, sql@)],
        sql_parses(dialect, sql@) ==> issues_of(r@) == visible(
            statements_issues(*catalog, stmts@),
            directives_of(sql@),
        ),
{
    match syntax_error(dialect, sql) {
        Some(d) => {
            let r = vec![d];
            assert(issues_of(r@) =~= seq![parse_issue(dialect, sql@)]);
            r
        },
        None => {
            let ds = analyze_statements(catalog, stmts);
            let directives = InlineDirectives::parse(sql);
            let r = directives.filter(ds);
            proof {
                lemma_issues_unsuppressed(ds@, directives@);
            }
            r
        },
    }
}

/// Idempotence and determinism: any two results that `analyze` may give
/// for the same catalog, dialect, text and statements are the same
/// diagnostics in the same order: kind, severity, location, message and
/// help alike.
pub proof fn lemma_analysis_deterministic(
    c: Catalog,
    d: SqlDialect,
    sql: Seq<char>,
    stmts: Seq<Stmt>,
    r1: Seq<Diagnostic>,
    r2: Seq<Diagnostic>,
)
    requires
        issues_of(r1) == analysis(c, d, sql, stmts),
        issues_of(r2) == analysis(c, d, sql, stmts),
    ensures
        r1.len() == r2.len(),
        forall|i: int|
            0 <= i < r1.len() ==> (#[trigger] r1[i]).kind == r2[i].kind && r1[i].severity == r2[i].severity
                && r1[i].span == r2[i].span && r1[i].message@ == r2[i].message@ && opt_view(r1[i].help)
                == opt_view(r2[i].help),
{
    assert(issues_of(r1).len() == r1.len());
    assert(issues_of(r2).len() == r2.len());
    assert forall|i: int| 0 <= i < r1.len() implies (#[trigger] r1[i]).kind == r2[i].kind && r1[i].severity
        == r2[i].severity && r1[i].span == r2[i].span && r1[i].message@ == r2[i].message@ && opt_view(
        r1[i].help,
    ) == opt_view(r2[i].help) by {
        assert(issues_of(r1)[i] == issues_of(r2)[i]);
        assert(issues_of(r1)[i] == issue_of(r1[i]));
        assert(issues_of(r2)[i] == issue_of(r2[i]));
    }
}

} // verus!
