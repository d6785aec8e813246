use sqlsift::builder::{apply_ddl, declared_type, ColumnSpec, DdlStatement};
use sqlsift::catalog::{
    Catalog, CheckConstraint, ColumnOptions, EnumType, IdentityKind, ProjectionItem, QualifiedName,
};
use sqlsift::types::SqlType;
use sqlsift::{DiagnosticKind, SqlDialect};

fn plain() -> ColumnOptions {
    ColumnOptions { primary_key: false, not_null: false, serial: false, auto_increment: false, identity: None }
}

fn spec(name: &str, kw: &str, options: ColumnOptions) -> ColumnSpec {
    ColumnSpec {
        name: name.to_string(),
        type_keyword: kw.to_string(),
        options,
        default_expr: None,
        checks: vec![],
    }
}

fn create_users(cat: &mut Catalog, dialect: SqlDialect) {
    let stmt = DdlStatement::CreateTable {
        name: QualifiedName::new("users"),
        columns: vec![
            spec("id", "SERIAL", plain()),
            spec("name", "VARCHAR", ColumnOptions { not_null: true, ..plain() }),
            spec("email", "TEXT", plain()),
        ],
        checks: vec![],
        foreign_keys: vec![],
    };
    assert!(apply_ddl(cat, dialect, stmt).is_none());
}

#[test]
fn create_table_columns_and_nullability() {
    let mut cat = Catalog::new(SqlDialect::PostgreSQL);
    create_users(&mut cat, SqlDialect::PostgreSQL);
    let t = cat.get_table(&QualifiedName::new("users")).unwrap();
    assert_eq!(t.columns.len(), 3);
    assert_eq!(t.columns[0].data_type, SqlType::Integer);
    assert!(!t.columns[0].nullable);
    assert!(!t.columns[1].nullable);
    assert!(t.columns[2].nullable);
    assert_eq!(t.columns[1].data_type, SqlType::Varchar(None));
}

#[test]
fn duplicate_create_table_warns() {
    let mut cat = Catalog::default();
    create_users(&mut cat, SqlDialect::PostgreSQL);
    let again = DdlStatement::CreateTable { name: QualifiedName::new("users"), columns: vec![], checks: vec![], foreign_keys: vec![] };
    let w = apply_ddl(&mut cat, SqlDialect::PostgreSQL, again).unwrap();
    assert_eq!(w.kind, DiagnosticKind::DuplicateDefinition);
}

#[test]
fn mysql_specific_types() {
    let mut cat = Catalog::new(SqlDialect::MySQL);
    let stmt = DdlStatement::CreateTable {
        name: QualifiedName::new("users"),
        columns: vec![
            spec("id", "INT", ColumnOptions { primary_key: true, auto_increment: true, ..plain() }),
            spec("age", "TINYINT", plain()),
            spec("status", "enum", plain()),
            spec("count", "MEDIUMINT", plain()),
        ],
        checks: vec![],
        foreign_keys: vec![],
    };
    apply_ddl(&mut cat, SqlDialect::MySQL, stmt);
    let t = cat.get_table(&QualifiedName::new("users")).unwrap();
    assert_eq!(t.get_column("age").unwrap().data_type, SqlType::TinyInt);
    assert!(matches!(&t.get_column("status").unwrap().data_type, SqlType::Custom(name) if name == "ENUM"));
    assert_eq!(t.get_column("count").unwrap().data_type, SqlType::MediumInt);
    assert!(!t.get_column("id").unwrap().nullable);
}

#[test]
fn enum_typed_columns() {
    let mut cat = Catalog::default();
    assert!(apply_ddl(
        &mut cat,
        SqlDialect::PostgreSQL,
        DdlStatement::CreateEnum {
            name: "status".to_string(),
            labels: vec!["active".to_string(), "inactive".to_string(), "pending".to_string()],
        },
    )
    .is_none());
    let e: &EnumType = cat.get_enum("status").unwrap();
    assert_eq!(e.values, vec!["active", "inactive", "pending"]);
    assert_eq!(declared_type(&cat, SqlDialect::PostgreSQL, "status"), SqlType::Enum("status".to_string()));
    assert_eq!(declared_type(&cat, SqlDialect::PostgreSQL, "geometry"), SqlType::Custom("GEOMETRY".to_string()));
}

#[test]
fn identity_and_checks() {
    let mut cat = Catalog::default();
    let mut id = spec("id", "INTEGER", ColumnOptions { identity: Some(IdentityKind::ByDefault), ..plain() });
    id.checks.push(CheckConstraint { name: None, expression: "id > 0".to_string() });
    let stmt = DdlStatement::CreateTable {
        name: QualifiedName::new("logs"),
        columns: vec![id],
        checks: vec![CheckConstraint { name: Some("c".to_string()), expression: "true".to_string() }],
        foreign_keys: vec![],
    };
    apply_ddl(&mut cat, SqlDialect::PostgreSQL, stmt);
    let t = cat.get_table(&QualifiedName::new("logs")).unwrap();
    assert!(matches!(t.columns[0].identity, Some(IdentityKind::ByDefault)));
    assert!(!t.columns[0].nullable);
    assert_eq!(t.check_constraints.len(), 2);
    assert_eq!(t.check_constraints[0].expression, "id > 0");
}

#[test]
fn views_from_declared_or_inferred_columns() {
    let mut cat = Catalog::default();
    create_users(&mut cat, SqlDialect::PostgreSQL);
    apply_ddl(
        &mut cat,
        SqlDialect::PostgreSQL,
        DdlStatement::CreateView {
            name: QualifiedName::new("active_users"),
            materialized: false,
            columns: vec![],
            projection: vec![
                ProjectionItem { alias: None, column_path: vec!["id".to_string()] },
                ProjectionItem { alias: None, column_path: vec!["users".to_string(), "name".to_string()] },
                ProjectionItem { alias: Some("mail".to_string()), column_path: vec!["email".to_string()] },
            ],
        },
    );
    assert_eq!(cat.get_view(&QualifiedName::new("active_users")).unwrap().columns, vec!["id", "name", "mail"]);
    apply_ddl(
        &mut cat,
        SqlDialect::PostgreSQL,
        DdlStatement::CreateView {
            name: QualifiedName::new("user_info"),
            materialized: true,
            columns: vec!["user_id".to_string(), "user_name".to_string()],
            projection: vec![],
        },
    );
    let v = cat.get_view(&QualifiedName::new("user_info")).unwrap();
    assert!(v.materialized);
    assert_eq!(v.columns, vec!["user_id", "user_name"]);
}

#[test]
fn alter_statements() {
    let mut cat = Catalog::default();
    create_users(&mut cat, SqlDialect::PostgreSQL);
    let users = || QualifiedName::new("users");
    assert!(apply_ddl(&mut cat, SqlDialect::PostgreSQL, DdlStatement::AddColumn { table: users(), column: spec("age", "INT", plain()) }).is_none());
    assert_eq!(cat.get_table(&users()).unwrap().columns.len(), 4);
    assert!(apply_ddl(&mut cat, SqlDialect::PostgreSQL, DdlStatement::RenameColumn { table: users(), from: "email".to_string(), to: "email_address".to_string() }).is_none());
    assert!(apply_ddl(&mut cat, SqlDialect::PostgreSQL, DdlStatement::DropColumn { table: users(), column: "age".to_string() }).is_none());
    let w = apply_ddl(&mut cat, SqlDialect::PostgreSQL, DdlStatement::DropColumn { table: users(), column: "age".to_string() }).unwrap();
    assert_eq!(w.kind, DiagnosticKind::ColumnNotFound);
    let t = cat.get_table(&users()).unwrap();
    assert!(t.get_column("email").is_none());
    assert!(t.get_column("email_address").is_some());
    assert!(apply_ddl(&mut cat, SqlDialect::PostgreSQL, DdlStatement::RenameTable { table: users(), to: "people".to_string() }).is_none());
    assert!(cat.table_exists(&QualifiedName::new("people")));
    assert!(!cat.table_exists(&users()));
    let w = apply_ddl(&mut cat, SqlDialect::PostgreSQL, DdlStatement::AddColumn { table: users(), column: spec("x", "INT", plain()) }).unwrap();
    assert_eq!(w.kind, DiagnosticKind::TableNotFound);
}

#[test]
fn type_keywords_from_rendered_types() {
    assert_eq!(sqlsift::builder::type_keyword("VARCHAR(100)"), "VARCHAR");
    assert_eq!(sqlsift::builder::type_keyword("TINYINT(3) UNSIGNED"), "TINYINT");
    assert_eq!(sqlsift::builder::type_keyword("MEDIUMINT UNSIGNED"), "MEDIUMINT");
    assert_eq!(sqlsift::builder::type_keyword(" DOUBLE PRECISION "), "DOUBLE PRECISION");
    assert_eq!(sqlsift::builder::type_keyword("ENUM('a', 'b')"), "ENUM");
    assert!(sqlsift::builder::is_auto_increment_word("auto_increment"));
    assert!(sqlsift::builder::is_auto_increment_word("AUTOINCREMENT"));
    assert!(!sqlsift::builder::is_auto_increment_word("DEFAULT"));
}
