// Analysis of SQL text: sqlparser reads it, the statements are turned into
// the library's values, and the library analyzes them.
use sqlparser::ast::{
    AlterTableOperation, AssignmentTarget, BinaryOperator, FunctionArg, FunctionArgExpr, FunctionArguments, GroupByExpr, ColumnDef, ColumnOption, Expr, FromTable,
    ForeignKeyConstraint, GeneratedAs, JoinConstraint, JoinOperator,
    Ident, ObjectName, ObjectNamePart, Query, RenameTableNameKind, SelectItem, SetExpr, Statement,
    TableConstraint, TableFactor, TableObject, TableWithJoins, UserDefinedTypeRepresentation, Value,
};
use sqlparser::dialect::{Dialect, MySqlDialect, PostgreSqlDialect, SQLiteDialect};
use sqlparser::parser::Parser;

use sqlsift::analyzer::{analyze, Stmt};
use sqlsift::builder::{apply_ddl, is_auto_increment_word, type_keyword, ColumnSpec, DdlStatement};
use sqlsift::catalog::{
    infer_view_columns, Catalog, CheckConstraint, ColumnOptions, ForeignKey, IdentityKind, ProjectionItem,
    QualifiedName,
};
use sqlsift::checks::Assignment;
use sqlsift::parse::parse_outcome_diagnostic;
use sqlsift::scope::{cte_def, BoundColumn, ColumnRef, Comparison, Compared, CteBody, CteDef, DerivedTable, FromRef, QueryModel};
use sqlsift::types::{number_literal_type, string_literal_type, SqlType, ValueType};
use sqlsift::{Diagnostic, DiagnosticKind, Span, SqlDialect};



/// The sqlparser dialect used to read text of `dialect`.
// Returns a trait object of sqlparser, which the verified library cannot hold.
fn parser_dialect(dialect: SqlDialect) -> Box<dyn Dialect> {
    match dialect {
        SqlDialect::PostgreSQL => Box::new(PostgreSqlDialect {}),
        SqlDialect::MySQL => Box::new(MySqlDialect {}),
        SqlDialect::SQLite => Box::new(SQLiteDialect {}),
    }
}

fn qualified(name: &ObjectName) -> QualifiedName {
    let parts: Vec<String> = name
        .0
        .iter()
        .map(|p| match p {
            ObjectNamePart::Identifier(i) => i.value.clone(),
            other => other.to_string(),
        })
        .collect();
    match parts.as_slice() {
        [schema, name] => QualifiedName::with_schema(schema, name),
        _ => QualifiedName::new(parts.last().map(|s| s.as_str()).unwrap_or("")),
    }
}

fn check(name: &Option<sqlparser::ast::Ident>, expr: &Expr) -> CheckConstraint {
    CheckConstraint { name: name.as_ref().map(|n| n.value.clone()), expression: expr.to_string() }
}

fn foreign_key(fk: &ForeignKeyConstraint) -> ForeignKey {
    ForeignKey {
        name: fk.name.as_ref().map(|n| n.value.clone()),
        columns: fk.columns.iter().map(|c| c.value.clone()).collect(),
        references_table: qualified(&fk.foreign_table),
        references_columns: fk.referred_columns.iter().map(|c| c.value.clone()).collect(),
    }
}

fn column_spec(def: &ColumnDef) -> ColumnSpec {
    let declared = def.data_type.to_string();
    let mut spec = ColumnSpec {
        name: def.name.value.clone(),
        type_keyword: type_keyword(&declared),
        options: ColumnOptions {
            primary_key: false,
            not_null: false,
            serial: false,
            auto_increment: false,
            identity: None,
        },
        default_expr: None,
        checks: Vec::new(),
    };
    for opt in &def.options {
        match &opt.option {
            ColumnOption::NotNull => spec.options.not_null = true,
            ColumnOption::PrimaryKey(_) => spec.options.primary_key = true,
            ColumnOption::Default(e) => spec.default_expr = Some(e.to_string()),
            ColumnOption::Check(c) => spec.checks.push(check(&c.name, &c.expr)),
            ColumnOption::Generated { generated_as: GeneratedAs::Always, .. } => {
                spec.options.identity = Some(IdentityKind::Always)
            }
            ColumnOption::Generated { generated_as: GeneratedAs::ByDefault, .. } => {
                spec.options.identity = Some(IdentityKind::ByDefault)
            }
            ColumnOption::DialectSpecific(tokens) => {
                for t in tokens {
                    if is_auto_increment_word(&t.to_string()) {
                        spec.options.auto_increment = true;
                    }
                }
            }
            _ => {}
        }
    }
    spec
}

fn projection_item(item: &SelectItem) -> ProjectionItem {
    match item {
        SelectItem::ExprWithAlias { alias, .. } => {
            ProjectionItem { alias: Some(alias.value.clone()), column_path: vec![] }
        }
        SelectItem::UnnamedExpr(Expr::Identifier(i)) => {
            ProjectionItem { alias: None, column_path: vec![i.value.clone()] }
        }
        SelectItem::UnnamedExpr(Expr::CompoundIdentifier(ids)) => ProjectionItem {
            alias: None,
            column_path: ids.iter().map(|i| i.value.clone()).collect(),
        },
        _ => ProjectionItem { alias: None, column_path: vec![] },
    }
}

/// The library's DDL statements for one parsed statement (none for
/// statements that do not change the schema).
fn ddl_statements(stmt: &Statement) -> Vec<DdlStatement> {
    match stmt {
        Statement::CreateTable(ct) => {
            let checks = ct
                .constraints
                .iter()
                .filter_map(|c| match c {
                    TableConstraint::Check(c) => Some(check(&c.name, &c.expr)),
                    _ => None,
                })
                .collect();
            let foreign_keys = ct
                .constraints
                .iter()
                .filter_map(|c| match c {
                    TableConstraint::ForeignKey(fk) => Some(foreign_key(fk)),
                    _ => None,
                })
                .collect();
            vec![DdlStatement::CreateTable {
                name: qualified(&ct.name),
                columns: ct.columns.iter().map(column_spec).collect(),
                checks,
                foreign_keys,
            }]
        }
        Statement::CreateView(cv) => {
            let projection = match cv.query.body.as_ref() {
                SetExpr::Select(select) => select.projection.iter().map(projection_item).collect(),
                _ => vec![],
            };
            vec![DdlStatement::CreateView {
                name: qualified(&cv.name),
                materialized: cv.materialized,
                columns: cv.columns.iter().map(|c| c.name.value.clone()).collect(),
                projection,
            }]
        }
        Statement::CreateType {
            name,
            representation: Some(UserDefinedTypeRepresentation::Enum { labels }),
        } => vec![DdlStatement::CreateEnum {
            name: qualified(name).name,
            labels: labels.iter().map(|l| l.value.clone()).collect(),
        }],
        Statement::AlterTable(at) => {
            let mut out = Vec::new();
            for op in &at.operations {
                let table = qualified(&at.name);
                match op {
                    AlterTableOperation::AddColumn { column_def, .. } => {
                        out.push(DdlStatement::AddColumn { table, column: column_spec(column_def) })
                    }
                    AlterTableOperation::DropColumn { column_names, .. } => {
                        for n in column_names {
                            out.push(DdlStatement::DropColumn {
                                table: qualified(&at.name),
                                column: n.value.clone(),
                            });
                        }
                    }
                    AlterTableOperation::RenameColumn { old_column_name, new_column_name } => {
                        out.push(DdlStatement::RenameColumn {
                            table,
                            from: old_column_name.value.clone(),
                            to: new_column_name.value.clone(),
                        })
                    }
                    AlterTableOperation::RenameTable { table_name } => {
                        let new = match table_name {
                            RenameTableNameKind::As(n) | RenameTableNameKind::To(n) => qualified(n),
                        };
                        out.push(DdlStatement::RenameTable { table, to: new.name })
                    }
                    AlterTableOperation::AddConstraint {
                        constraint: TableConstraint::Check(c), ..
                    } => out.push(DdlStatement::AddCheck { table, check: check(&c.name, &c.expr) }),
                    AlterTableOperation::AddConstraint {
                        constraint: TableConstraint::ForeignKey(fk), ..
                    } => out.push(DdlStatement::AddForeignKey { table, key: foreign_key(fk) }),
                    _ => {}
                }
            }
            out
        }
        _ => vec![],
    }
}

/// Read DDL text into `catalog`; returns the schema warnings. A text that
/// does not parse gives its parse error and changes nothing.
fn load_ddl(catalog: &mut Catalog, dialect: SqlDialect, sql: &str) -> Result<Vec<Diagnostic>, Diagnostic> {
    let statements = match Parser::parse_sql(parser_dialect(dialect).as_ref(), sql) {
        Ok(s) => s,
        Err(e) => {
            let outcome = Err(e.to_string());
            return Err(parse_outcome_diagnostic(&outcome).expect("an error outcome gives a diagnostic"));
        }
    };
    let mut warnings = Vec::new();
    for stmt in &statements {
        for ddl in ddl_statements(stmt) {
            warnings.extend(apply_ddl(catalog, dialect, ddl));
        }
    }
    Ok(warnings)
}




fn span_of(ident: &Ident) -> Option<Span> {
    let start = ident.span.start;
    if start.line == 0 {
        None
    } else {
        Some(Span::with_location(start.line as usize, start.column as usize, ident.value.chars().count()))
    }
}

fn from_ref(tf: &TableFactor) -> Option<FromRef> {
    match tf {
        TableFactor::Table { name, alias, .. } => Some(FromRef {
            name: qualified(name),
            alias: alias.as_ref().map(|a| a.name.value.clone()),
            span: name.0.last().and_then(|p| p.as_ident()).and_then(span_of),
        }),
        _ => None,
    }
}

fn derived_table(tf: &TableFactor) -> Option<DerivedTable> {
    match tf {
        TableFactor::Derived { subquery, alias: Some(alias), lateral: false, .. } => {
            let SetExpr::Select(select) = subquery.body.as_ref() else {
                return None;
            };
            let items: Vec<_> = select.projection.iter().map(projection_item).collect();
            let outputs = infer_view_columns(&items)
                .into_iter()
                .map(|name| BoundColumn { name, data_type: SqlType::Unknown })
                .collect();
            Some(DerivedTable {
                alias: alias.name.value.clone(),
                names: alias.columns.iter().map(|c| c.name.value.clone()).collect(),
                outputs,
                query: query_model(subquery)?,
                span: span_of(&alias.name),
            })
        }
        TableFactor::UNNEST { alias: Some(alias), .. } => {
            let names: Vec<String> = alias.columns.iter().map(|c| c.name.value.clone()).collect();
            let outputs = names
                .iter()
                .map(|n| BoundColumn { name: n.clone(), data_type: SqlType::Unknown })
                .collect();
            Some(DerivedTable {
                alias: alias.name.value.clone(),
                names,
                outputs,
                query: empty_model(),
                span: span_of(&alias.name),
            })
        }
        _ => None,
    }
}

fn empty_model() -> QueryModel {
    QueryModel { from: vec![], refs: vec![], comparisons: vec![], subqueries: vec![], derived: vec![] }
}

fn from_refs(from: &[TableWithJoins]) -> Option<(Vec<FromRef>, Vec<DerivedTable>)> {
    let mut out = Vec::new();
    let mut derived = Vec::new();
    let relations = from.iter().flat_map(|t| std::iter::once(&t.relation).chain(t.joins.iter().map(|j| &j.relation)));
    for r in relations {
        match from_ref(r) {
            Some(f) => out.push(f),
            None => derived.push(derived_table(r)?),
        }
    }
    Some((out, derived))
}

/// The `ON` conditions of the joins of `from`.
fn join_conditions(from: &[TableWithJoins]) -> Vec<&Expr> {
    let mut out = Vec::new();
    for t in from {
        for j in &t.joins {
            let constraint = match &j.join_operator {
                JoinOperator::Join(c)
                | JoinOperator::Inner(c)
                | JoinOperator::Left(c)
                | JoinOperator::LeftOuter(c)
                | JoinOperator::Right(c)
                | JoinOperator::RightOuter(c)
                | JoinOperator::FullOuter(c) => Some(c),
                _ => None,
            };
            if let Some(JoinConstraint::On(e)) = constraint {
                out.push(e);
            }
        }
    }
    out
}

fn column_ref(e: &Expr) -> Option<ColumnRef> {
    match e {
        Expr::Identifier(i) => Some(ColumnRef { qualifier: None, name: i.value.clone(), span: span_of(i) }),
        Expr::CompoundIdentifier(ids) if ids.len() >= 2 => {
            let last = &ids[ids.len() - 1];
            Some(ColumnRef {
                qualifier: Some(ids[ids.len() - 2].value.clone()),
                name: last.value.clone(),
                span: span_of(last),
            })
        }
        _ => None,
    }
}

/// The comparisons of a column with a literal in `e`, through `AND`/`OR`.
fn comparisons_in(e: &Expr, out: &mut Vec<Comparison>) {
    match e {
        Expr::BinaryOp { left, op, right } => match op {
            BinaryOperator::And | BinaryOperator::Or => {
                comparisons_in(left, out);
                comparisons_in(right, out);
            }
            BinaryOperator::Eq
            | BinaryOperator::NotEq
            | BinaryOperator::Lt
            | BinaryOperator::LtEq
            | BinaryOperator::Gt
            | BinaryOperator::GtEq => {
                match (column_ref(left), column_ref(right)) {
                    (Some(a), Some(b)) => out.push(Comparison { column: a, other: Compared::Column(b) }),
                    (Some(a), None) if matches!(right.as_ref(), Expr::Value(_)) => {
                        out.push(Comparison { column: a, other: Compared::Value(value_type(right)) })
                    }
                    (None, Some(b)) if matches!(left.as_ref(), Expr::Value(_)) => {
                        out.push(Comparison { column: b, other: Compared::Value(value_type(left)) })
                    }
                    _ => {}
                }
            }
            _ => {}
        },
        Expr::Nested(inner) => comparisons_in(inner, out),
        _ => {}
    }
}

fn collect(expr: &Expr, refs: &mut Vec<ColumnRef>, subs: &mut Vec<QueryModel>) -> Option<()> {
    match expr {
        Expr::Identifier(i) => refs.push(ColumnRef { qualifier: None, name: i.value.clone(), span: span_of(i) }),
        Expr::CompoundIdentifier(ids) if ids.len() >= 2 => {
            let last = &ids[ids.len() - 1];
            refs.push(ColumnRef {
                qualifier: Some(ids[ids.len() - 2].value.clone()),
                name: last.value.clone(),
                span: span_of(last),
            })
        }
        Expr::BinaryOp { left, right, .. } => {
            collect(left, refs, subs)?;
            collect(right, refs, subs)?;
        }
        Expr::UnaryOp { expr, .. } | Expr::Nested(expr) | Expr::IsNull(expr) | Expr::IsNotNull(expr) => {
            collect(expr, refs, subs)?
        }
        Expr::Between { expr, low, high, .. } => {
            collect(expr, refs, subs)?;
            collect(low, refs, subs)?;
            collect(high, refs, subs)?;
        }
        Expr::InList { expr, list, .. } => {
            collect(expr, refs, subs)?;
            for e in list {
                collect(e, refs, subs)?;
            }
        }
        Expr::InSubquery { expr, subquery, .. } => {
            collect(expr, refs, subs)?;
            subs.push(query_model(subquery)?);
        }
        Expr::Exists { subquery, .. } | Expr::Subquery(subquery) => subs.push(query_model(subquery)?),
        Expr::Cast { expr, .. } => collect(expr, refs, subs)?,
        Expr::Case { operand, conditions, else_result, .. } => {
            for e in operand.iter().chain(else_result.iter()) {
                collect(e, refs, subs)?;
            }
            for w in conditions {
                collect(&w.condition, refs, subs)?;
                collect(&w.result, refs, subs)?;
            }
        }
        Expr::Function(f) => {
            if let FunctionArguments::List(list) = &f.args {
                for a in &list.args {
                    let arg = match a {
                        FunctionArg::Named { arg, .. } | FunctionArg::ExprNamed { arg, .. } | FunctionArg::Unnamed(arg) => arg,
                    };
                    if let FunctionArgExpr::Expr(e) = arg {
                        collect(e, refs, subs)?;
                    }
                }
            }
        }
        _ => {}
    }
    Some(())
}

/// The model of a single `SELECT` block, if the model can hold it.
fn query_model(q: &Query) -> Option<QueryModel> {
    set_model(q.body.as_ref())
}

/// The model of a query body; each side of a set operation is analyzed as
/// a query of its own.
fn set_model(body: &SetExpr) -> Option<QueryModel> {
    let select = match body {
        SetExpr::Select(select) => select,
        SetExpr::Query(q) => return query_model(q),
        SetExpr::SetOperation { left, right, .. } => {
            let mut m = empty_model();
            m.subqueries.push(set_model(left)?);
            m.subqueries.push(set_model(right)?);
            return Some(m);
        }
        _ => return None,
    };
    let (from, derived) = from_refs(&select.from)?;
    let mut refs = Vec::new();
    let mut subqueries = Vec::new();
    for item in &select.projection {
        match item {
            SelectItem::UnnamedExpr(e) | SelectItem::ExprWithAlias { expr: e, .. } => {
                collect(e, &mut refs, &mut subqueries)?
            }
            _ => {}
        }
    }
    let mut comparisons = Vec::new();
    for e in select.selection.iter().chain(select.having.iter()).chain(join_conditions(&select.from)) {
        collect(e, &mut refs, &mut subqueries)?;
        comparisons_in(e, &mut comparisons);
    }
    if let GroupByExpr::Expressions(exprs, _) = &select.group_by {
        for e in exprs {
            collect(e, &mut refs, &mut subqueries)?;
        }
    }
    Some(QueryModel { from, refs, comparisons, subqueries, derived })
}

fn returning_items(items: &Option<Vec<SelectItem>>) -> Option<Vec<ProjectionItem>> {
    Some(items.as_ref()?.iter().map(projection_item).collect())
}

/// The CTEs of a query's `WITH` clause.
pub fn ctes_of(q: &Query) -> Option<Vec<CteDef>> {
    let mut out = Vec::new();
    if let Some(with) = &q.with {
        for cte in &with.cte_tables {
            let body = match cte.query.body.as_ref() {
                SetExpr::Select(select) => CteBody::Select(select.projection.iter().map(projection_item).collect()),
                SetExpr::Insert(Statement::Insert(ins)) => CteBody::Returning(returning_items(&ins.returning)?),
                SetExpr::Update(Statement::Update(upd)) => CteBody::Returning(returning_items(&upd.returning)?),
                SetExpr::Delete(Statement::Delete(del)) => CteBody::Returning(returning_items(&del.returning)?),
                _ => return None,
            };
            out.push(cte_def(&cte.alias.name.value, &body));
        }
    }
    Some(out)
}

/// The type of a value expression as the checks see it.
fn value_type(e: &Expr) -> ValueType {
    match e {
        Expr::Value(v) => match &v.value {
            Value::Null => ValueType::Null,
            Value::Boolean(_) => ValueType::Typed(SqlType::Boolean),
            Value::Number(n, _) => ValueType::Typed(number_literal_type(n)),
            Value::SingleQuotedString(s) => string_literal_type(s),
            _ => ValueType::Typed(SqlType::Unknown),
        },
        _ => ValueType::Typed(SqlType::Unknown),
    }
}

fn name_span(name: &ObjectName) -> Option<Span> {
    name.0.last().and_then(|p| p.as_ident()).and_then(span_of)
}

fn filter_refs(selection: &Option<Expr>) -> Vec<ColumnRef> {
    let mut refs = Vec::new();
    let mut subs = Vec::new();
    if let Some(e) = selection {
        let _ = collect(e, &mut refs, &mut subs);
    }
    refs
}

/// The library's model of a parsed statement, if it holds one.
fn to_stmt(stmt: &Statement) -> Option<Stmt> {
    match stmt {
        Statement::Query(q) => Some(Stmt::Query { ctes: ctes_of(q)?, query: query_model(q)? }),
        Statement::Insert(ins) => {
            let TableObject::TableName(name) = &ins.table else {
                return None;
            };
            let rows: Vec<Vec<ValueType>> = match ins.source.as_ref().map(|q| q.body.as_ref()) {
                Some(SetExpr::Values(v)) => {
                    v.rows.iter().map(|r| r.content.iter().map(value_type).collect()).collect()
                }
                _ => return None,
            };
            Some(Stmt::Insert {
                table: qualified(name),
                span: name_span(name),
                columns: ins.columns.iter().map(|c| qualified(c).name).collect(),
                rows,
            })
        }
        Statement::Update(upd) => {
            let TableFactor::Table { name, .. } = &upd.table.relation else {
                return None;
            };
            let sets = upd
                .assignments
                .iter()
                .filter_map(|a| match &a.target {
                    AssignmentTarget::ColumnName(n) => {
                        Some(Assignment { column: qualified(n).name, value: value_type(&a.value) })
                    }
                    AssignmentTarget::Tuple(_) => None,
                })
                .collect();
            Some(Stmt::Update {
                table: qualified(name),
                span: name_span(name),
                sets,
                filter: filter_refs(&upd.selection),
            })
        }
        Statement::Delete(del) => {
            let (FromTable::WithFromKeyword(tables) | FromTable::WithoutKeyword(tables)) = &del.from;
            let [t] = tables.as_slice() else {
                return None;
            };
            let TableFactor::Table { name, .. } = &t.relation else {
                return None;
            };
            Some(Stmt::Delete { table: qualified(name), span: name_span(name), filter: filter_refs(&del.selection) })
        }
        _ => None,
    }
}

fn catalog_from(dialect: SqlDialect, ddl: &str) -> Catalog {
    let mut catalog = Catalog::new(dialect);
    load_ddl(&mut catalog, dialect, ddl).unwrap();
    catalog
}

fn run(catalog: &Catalog, dialect: SqlDialect, sql: &str) -> Vec<Diagnostic> {
    let statements = Parser::parse_sql(parser_dialect(dialect).as_ref(), sql).unwrap_or_default();
    let stmts: Vec<Stmt> = statements.iter().filter_map(to_stmt).collect();
    assert_eq!(stmts.len(), statements.len(), "every statement is modelled");
    analyze(catalog, dialect, sql, &stmts)
}

fn setup_mysql_catalog() -> Catalog {
    let schema_sql = r#"
            CREATE TABLE users (
                id INT AUTO_INCREMENT PRIMARY KEY,
                username VARCHAR(50) NOT NULL,
                email VARCHAR(255) NOT NULL,
                age TINYINT UNSIGNED,
                status ENUM('active', 'inactive', 'banned') DEFAULT 'active',
                login_count MEDIUMINT UNSIGNED DEFAULT 0,
                created_at DATETIME DEFAULT CURRENT_TIMESTAMP,
                UNIQUE KEY uk_email (email)
            ) ENGINE=InnoDB DEFAULT CHARSET=utf8mb4;

            CREATE TABLE posts (
                id BIGINT AUTO_INCREMENT PRIMARY KEY,
                user_id INT NOT NULL,
                title VARCHAR(200) NOT NULL,
                body MEDIUMTEXT,
                view_count INT UNSIGNED DEFAULT 0,
                is_published TINYINT(1) DEFAULT 0,
                published_at DATETIME,
                FOREIGN KEY (user_id) REFERENCES users(id)
            ) ENGINE=InnoDB;
        "#;
    catalog_from(SqlDialect::MySQL, schema_sql)
}

fn setup_sqlite_catalog() -> Catalog {
    let schema_sql = r#"
        CREATE TABLE users (
            id INTEGER PRIMARY KEY AUTOINCREMENT,
            name TEXT NOT NULL,
            email TEXT,
            age INTEGER
        );

        CREATE TABLE posts (
            id INTEGER PRIMARY KEY AUTOINCREMENT,
            user_id INTEGER NOT NULL,
            title TEXT NOT NULL,
            body TEXT,
            FOREIGN KEY (user_id) REFERENCES users(id)
        );
    "#;
    catalog_from(SqlDialect::SQLite, schema_sql)
}

fn setup_catalog() -> Catalog {
    let schema_sql = r#"
            CREATE TABLE users (
                id SERIAL PRIMARY KEY,
                name VARCHAR(100) NOT NULL,
                email TEXT
            );

            CREATE TABLE orders (
                id SERIAL PRIMARY KEY,
                user_id INTEGER NOT NULL,
                total DECIMAL(10, 2)
            );
        "#;
    catalog_from(SqlDialect::PostgreSQL, schema_sql)
}

#[test]
fn test_mysql_valid_select() {
    let catalog = setup_mysql_catalog();
    let diagnostics = run(&catalog, SqlDialect::MySQL, "SELECT id, username, email, age, status FROM users");
    assert!(diagnostics.is_empty(), "Valid MySQL SELECT should have no errors: {:?}", diagnostics);
}

#[test]
fn test_mysql_join() {
    let catalog = setup_mysql_catalog();
    let diagnostics = run(
        &catalog,
        SqlDialect::MySQL,
        "SELECT p.title, u.username FROM posts p INNER JOIN users u ON p.user_id = u.id WHERE p.is_published = 1",
    );
    assert!(diagnostics.is_empty(), "Valid MySQL JOIN should have no errors: {:?}", diagnostics);
}

#[test]
fn test_mysql_insert() {
    let catalog = setup_mysql_catalog();
    let diagnostics = run(
        &catalog,
        SqlDialect::MySQL,
        "INSERT INTO users (username, email, age, status) VALUES ('test', 'test@example.com', 25, 'active')",
    );
    assert!(diagnostics.is_empty(), "Valid MySQL INSERT should have no errors: {:?}", diagnostics);
}

#[test]
fn test_mysql_column_not_found() {
    let catalog = setup_mysql_catalog();
    let diagnostics = run(&catalog, SqlDialect::MySQL, "SELECT usrname FROM users");
    assert_eq!(diagnostics.len(), 1);
    assert_eq!(diagnostics[0].kind, DiagnosticKind::ColumnNotFound);
    assert!(diagnostics[0].message.contains("usrname"));
}

#[test]
fn test_mysql_table_not_found() {
    let catalog = setup_mysql_catalog();
    let diagnostics = run(&catalog, SqlDialect::MySQL, "SELECT * FROM nonexistent");
    assert!(!diagnostics.is_empty());
    assert_eq!(diagnostics[0].kind, DiagnosticKind::TableNotFound);
}

#[test]
fn test_mysql_subquery() {
    let catalog = setup_mysql_catalog();
    let diagnostics = run(
        &catalog,
        SqlDialect::MySQL,
        "SELECT username FROM users WHERE id IN (SELECT user_id FROM posts WHERE is_published = 1)",
    );
    assert!(diagnostics.is_empty(), "Valid MySQL subquery should have no errors: {:?}", diagnostics);
}

#[test]
fn test_mysql_cte() {
    let catalog = setup_mysql_catalog();
    let diagnostics = run(
        &catalog,
        SqlDialect::MySQL,
        "WITH active_users AS (SELECT id, username FROM users WHERE status = 'active') SELECT au.username FROM active_users au",
    );
    assert!(diagnostics.is_empty(), "Valid MySQL CTE should have no errors: {:?}", diagnostics);
}

#[test]
fn test_mysql_update() {
    let catalog = setup_mysql_catalog();
    let diagnostics = run(&catalog, SqlDialect::MySQL, "UPDATE posts SET is_published = 1 WHERE id = 1");
    assert!(diagnostics.is_empty(), "Valid MySQL UPDATE should have no errors: {:?}", diagnostics);
}

#[test]
fn test_mysql_delete() {
    let catalog = setup_mysql_catalog();
    let diagnostics = run(&catalog, SqlDialect::MySQL, "DELETE FROM posts WHERE user_id = 1");
    assert!(diagnostics.is_empty(), "Valid MySQL DELETE should have no errors: {:?}", diagnostics);
}

#[test]
fn test_sqlite_valid_select() {
    let catalog = setup_sqlite_catalog();
    let diagnostics = run(&catalog, SqlDialect::SQLite, "SELECT id, name, email FROM users");
    assert!(diagnostics.is_empty(), "Valid SQLite SELECT should have no errors: {:?}", diagnostics);
}

#[test]
fn test_sqlite_insert() {
    let catalog = setup_sqlite_catalog();
    let diagnostics = run(
        &catalog,
        SqlDialect::SQLite,
        "INSERT INTO users (name, email, age) VALUES ('Alice', 'a@b.com', 30)",
    );
    assert!(diagnostics.is_empty(), "Valid SQLite INSERT should have no errors: {:?}", diagnostics);

    let diagnostics = run(
        &catalog,
        SqlDialect::SQLite,
        "INSERT INTO users (name, age) VALUES ('Alice', 'not_a_number')",
    );
    assert_eq!(diagnostics.len(), 1, "SQLite INSERT type mismatch should be detected: {:?}", diagnostics);
    assert_eq!(diagnostics[0].kind, DiagnosticKind::TypeMismatch);
}

#[test]
fn test_sqlite_update() {
    let catalog = setup_sqlite_catalog();
    let diagnostics = run(&catalog, SqlDialect::SQLite, "UPDATE users SET name = 'Bob' WHERE id = 1");
    assert!(diagnostics.is_empty(), "Valid SQLite UPDATE should have no errors: {:?}", diagnostics);

    let diagnostics = run(&catalog, SqlDialect::SQLite, "UPDATE users SET age = 'old'");
    assert_eq!(diagnostics.len(), 1, "SQLite UPDATE type mismatch should be detected: {:?}", diagnostics);
    assert_eq!(diagnostics[0].kind, DiagnosticKind::TypeMismatch);
}

#[test]
fn test_sqlite_delete() {
    let catalog = setup_sqlite_catalog();
    let diagnostics = run(&catalog, SqlDialect::SQLite, "DELETE FROM users WHERE id = 1");
    assert!(diagnostics.is_empty(), "Valid SQLite DELETE should have no errors: {:?}", diagnostics);

    let diagnostics = run(&catalog, SqlDialect::SQLite, "DELETE FROM users WHERE nonexistent = 1");
    assert_eq!(diagnostics.len(), 1);
    assert_eq!(diagnostics[0].kind, DiagnosticKind::ColumnNotFound);
}

#[test]
fn undefined_table_at_line_one() {
    let catalog = catalog_from(SqlDialect::PostgreSQL, "CREATE TABLE users(id INT);");
    let d = run(&catalog, SqlDialect::PostgreSQL, "SELECT * FROM nonexistent");
    assert_eq!(d.len(), 1);
    assert_eq!(d[0].code(), "E0001");
    assert_eq!(d[0].span.unwrap().line, 1);
}

#[test]
fn ambiguous_column_text() {
    let catalog = catalog_from(
        SqlDialect::PostgreSQL,
        "CREATE TABLE users(id INT); CREATE TABLE orders(id INT, user_id INT);",
    );
    let d = run(&catalog, SqlDialect::PostgreSQL, "SELECT id FROM users JOIN orders ON users.id = orders.user_id");
    assert_eq!(d.len(), 1);
    assert_eq!(d[0].code(), "E0004");
    assert!(d[0].message.contains("ambiguous"));
    assert!(d[0].message.contains("id"));
}

#[test]
fn inline_suppression_text() {
    let catalog = catalog_from(SqlDialect::PostgreSQL, "CREATE TABLE users(id INT);");
    let d = run(
        &catalog,
        SqlDialect::PostgreSQL,
        "-- sqlsift:disable E0002\nSELECT bad FROM users;\nSELECT worse FROM users",
    );
    assert_eq!(d.len(), 1);
    assert_eq!(d[0].code(), "E0002");
    assert_eq!(d[0].span.unwrap().line, 3);
    assert!(d[0].message.contains("worse"));
}

#[test]
fn cte_with_returning_text() {
    let catalog = catalog_from(SqlDialect::PostgreSQL, "CREATE TABLE users(id INT, name TEXT, email TEXT);");
    let d = run(
        &catalog,
        SqlDialect::PostgreSQL,
        "WITH nu AS (INSERT INTO users(name,email) VALUES('a','b') RETURNING id,name) SELECT nu.id,nu.name FROM nu",
    );
    assert!(d.is_empty(), "{:?}", d);
}

#[test]
fn parse_error_text() {
    let catalog = setup_catalog();
    let d = run(&catalog, SqlDialect::PostgreSQL, "SELECT * FROM");
    assert_eq!(d.len(), 1);
    assert_eq!(d[0].code(), "E0006");
}

#[test]
fn postgres_column_not_found_text() {
    let catalog = setup_catalog();
    let d = run(&catalog, SqlDialect::PostgreSQL, "SELECT u.nonexistent FROM users u");
    assert_eq!(d.len(), 1);
    assert_eq!(d[0].kind, DiagnosticKind::ColumnNotFound);
    assert!(d[0].message.contains("nonexistent"));
}

#[test]
fn uuid_comparison_text() {
    let catalog = catalog_from(SqlDialect::PostgreSQL, "CREATE TABLE users(id UUID PRIMARY KEY);");
    let ok = run(&catalog, SqlDialect::PostgreSQL, "SELECT * FROM users WHERE id = '123e4567-e89b-12d3-a456-426614174000'");
    assert!(ok.is_empty(), "{:?}", ok);
    let bad = run(&catalog, SqlDialect::PostgreSQL, "SELECT * FROM users WHERE id = 42");
    assert_eq!(bad.len(), 1);
    assert_eq!(bad[0].code(), "E0003");
}

#[test]
fn join_condition_is_resolved() {
    let catalog = setup_catalog();
    let d = run(&catalog, SqlDialect::PostgreSQL, "SELECT u.name FROM users u JOIN orders o ON o.user_ident = u.id");
    assert_eq!(d.len(), 1);
    assert_eq!(d[0].kind, DiagnosticKind::ColumnNotFound);
    assert!(d[0].message.contains("user_ident"));
}

#[test]
fn derived_table_arity_text() {
    let catalog = setup_catalog();
    let d = run(&catalog, SqlDialect::PostgreSQL, "SELECT sub.x FROM (SELECT id, name FROM users) AS sub(x)");
    assert_eq!(d.len(), 1, "{:?}", d);
    assert_eq!(d[0].code(), "E0005");
    let ok = run(&catalog, SqlDialect::PostgreSQL, "SELECT sub.x, sub.y FROM (SELECT id, name FROM users) AS sub(x, y)");
    assert!(ok.is_empty(), "{:?}", ok);
    let plain = run(&catalog, SqlDialect::PostgreSQL, "SELECT s.name FROM (SELECT id, name FROM users) s");
    assert!(plain.is_empty(), "{:?}", plain);
}

#[test]
fn group_by_references_are_resolved() {
    let catalog = setup_catalog();
    let d = run(&catalog, SqlDialect::PostgreSQL, "SELECT user_id FROM orders GROUP BY user_idx");
    assert_eq!(d.len(), 1);
    assert!(d[0].message.contains("user_idx"));
}

#[test]
fn column_comparisons_and_function_arguments() {
    let catalog = catalog_from(
        SqlDialect::PostgreSQL,
        "CREATE TABLE a(id UUID, n INT); CREATE TABLE b(ref INT, label TEXT);",
    );
    let d = run(&catalog, SqlDialect::PostgreSQL, "SELECT a.n FROM a JOIN b ON a.id = b.ref");
    assert_eq!(d.len(), 1, "{:?}", d);
    assert_eq!(d[0].code(), "E0003");
    let ok = run(&catalog, SqlDialect::PostgreSQL, "SELECT a.n FROM a JOIN b ON a.n = b.ref");
    assert!(ok.is_empty(), "{:?}", ok);
    let f = run(&catalog, SqlDialect::PostgreSQL, "SELECT upper(labl) FROM b");
    assert_eq!(f.len(), 1);
    assert!(f[0].message.contains("labl"));
}

#[test]
fn foreign_keys_reach_the_catalog() {
    let catalog = catalog_from(
        SqlDialect::PostgreSQL,
        "CREATE TABLE users(id INT PRIMARY KEY); CREATE TABLE posts(id INT, user_id INT, FOREIGN KEY (user_id) REFERENCES users(id)); CREATE TABLE likes(post_id INT); ALTER TABLE likes ADD CONSTRAINT fk_post FOREIGN KEY (post_id) REFERENCES posts(id);",
    );
    let posts = catalog.get_table(&QualifiedName::new("posts")).unwrap();
    assert_eq!(posts.foreign_keys.len(), 1);
    assert_eq!(posts.foreign_keys[0].references_table.name, "users");
    let likes = catalog.get_table(&QualifiedName::new("likes")).unwrap();
    assert_eq!(likes.foreign_keys.len(), 1);
    assert_eq!(likes.foreign_keys[0].name.as_deref(), Some("fk_post"));
}

#[test]
fn union_sides_and_unnest() {
    let catalog = setup_catalog();
    let d = run(&catalog, SqlDialect::PostgreSQL, "SELECT id FROM users UNION SELECT idd FROM orders");
    assert_eq!(d.len(), 1, "{:?}", d);
    assert!(d[0].message.contains("idd"));
    let u = run(&catalog, SqlDialect::PostgreSQL, "SELECT t.a, t.b FROM UNNEST(ARRAY[1, 2]) WITH ORDINALITY AS t(a, b)");
    assert!(u.is_empty(), "{:?}", u);
    let star = run(&catalog, SqlDialect::PostgreSQL, "SELECT * FROM UNNEST(ARRAY[1, 2]) AS t");
    assert!(star.is_empty(), "{:?}", star);
}
