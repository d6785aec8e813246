use sqlsift::paths::{resolve_pattern, schema_dir_pattern};

#[test]
fn relative_patterns_join_root() {
    assert_eq!(resolve_pattern("/work", "schema/*.sql"), "/work/schema/*.sql");
    assert_eq!(resolve_pattern("/work/", "db.sql"), "/work/db.sql");
}

#[test]
fn absolute_patterns_stay() {
    assert_eq!(resolve_pattern("/work", "/etc/schema.sql"), "/etc/schema.sql");
}

#[test]
fn schema_dir_finds_sql_below() {
    assert_eq!(schema_dir_pattern("/work", "migrations"), "/work/migrations/**/*.sql");
    assert_eq!(schema_dir_pattern("/work", "/abs/dir"), "/abs/dir/**/*.sql");
}
