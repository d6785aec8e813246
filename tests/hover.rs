use sqlsift::catalog::{Catalog, CatalogView, Column, QualifiedName, Table};
use sqlsift::hover::{hover_info, word_at_position};
use sqlsift::types::SqlType;

fn col(name: &str, t: SqlType, nullable: bool) -> Column {
    let mut c = Column::new(name, t);
    c.nullable = nullable;
    c
}

fn catalog_with(tables: Vec<Table>) -> Catalog {
    let mut cat = Catalog::default();
    for t in tables {
        cat.add_table(t);
    }
    cat
}

fn table(name: &str, cols: Vec<Column>) -> Table {
    let mut t = Table::new(QualifiedName::new(name));
    for c in cols {
        t.add_column(c);
    }
    t
}

#[test]
fn test_hover_info_table() {
    let cat = catalog_with(vec![table(
        "users",
        vec![
            col("id", SqlType::Integer, false),
            col("name", SqlType::Text, true),
            col("age", SqlType::Integer, true),
        ],
    )]);
    let hover = hover_info(&cat, "users").unwrap();
    assert!(hover.contains("**users** (table)"));
    assert!(hover.contains("| id | integer | NOT NULL |"));
    assert!(hover.contains("| name | text | NULL |"));
    assert!(hover.contains("| age | integer | NULL |"));
}

#[test]
fn test_hover_info_view() {
    let mut cat = catalog_with(vec![table(
        "users",
        vec![col("id", SqlType::Integer, true), col("name", SqlType::Text, true)],
    )]);
    cat.add_view(CatalogView {
        name: QualifiedName::new("active_users"),
        materialized: false,
        columns: vec!["id".to_string(), "name".to_string()],
    });
    let hover = hover_info(&cat, "active_users").unwrap();
    assert!(hover.contains("**active_users** (view)"));
    assert!(hover.contains("Columns: id, name"));
}

#[test]
fn test_hover_info_column() {
    let cat = catalog_with(vec![table(
        "users",
        vec![col("id", SqlType::Integer, false), col("name", SqlType::Text, true)],
    )]);
    let hover = hover_info(&cat, "name").unwrap();
    assert!(hover.contains("**name** — text (nullable)"));
    assert!(hover.contains("Table: users"));
}

#[test]
fn test_hover_info_column_multiple_tables() {
    let cat = catalog_with(vec![
        table("users", vec![col("id", SqlType::Integer, false), col("name", SqlType::Text, true)]),
        table(
            "orders",
            vec![
                col("id", SqlType::Integer, false),
                col("total", SqlType::Decimal { precision: None, scale: None }, true),
            ],
        ),
    ]);
    let hover = hover_info(&cat, "id").unwrap();
    assert!(hover.contains("Table: users"));
    assert!(hover.contains("Table: orders"));
    assert!(hover.contains("---"));
}

#[test]
fn test_hover_info_not_found() {
    let cat = catalog_with(vec![table("users", vec![col("id", SqlType::Integer, true)])]);
    assert!(hover_info(&cat, "nonexistent").is_none());
}

#[test]
fn hover_materialized_view_exact_text() {
    let mut cat = Catalog::default();
    cat.add_view(CatalogView {
        name: QualifiedName::new("totals"),
        materialized: true,
        columns: vec!["a".to_string(), "b".to_string(), "c".to_string()],
    });
    assert_eq!(hover_info(&cat, "totals").unwrap(), "**totals** (materialized view)\n\nColumns: a, b, c");
}

#[test]
fn hover_column_exact_text() {
    let cat = catalog_with(vec![
        table("users", vec![col("id", SqlType::Integer, false)]),
        table("orders", vec![col("id", SqlType::BigInt, true)]),
    ]);
    assert_eq!(
        hover_info(&cat, "id").unwrap(),
        "**id** — integer (not null)\n\nTable: users\n\n---\n\n**id** — bigint (nullable)\n\nTable: orders"
    );
}

#[test]
fn test_word_at_position_middle() {
    let text = "SELECT name FROM users";
    assert_eq!(word_at_position(text, 0, 8), Some("name".to_string()));
}

#[test]
fn test_word_at_position_start() {
    let text = "SELECT name FROM users";
    assert_eq!(word_at_position(text, 0, 0), Some("SELECT".to_string()));
}

#[test]
fn test_word_at_position_end() {
    let text = "SELECT name FROM users";
    assert_eq!(word_at_position(text, 0, 18), Some("users".to_string()));
}

#[test]
fn test_word_at_position_multiline() {
    let text = "SELECT id\nFROM users";
    assert_eq!(word_at_position(text, 1, 5), Some("users".to_string()));
}

#[test]
fn test_word_at_position_on_space() {
    let text = "SELECT name FROM users";
    assert_eq!(word_at_position(text, 0, 6), None);
}

#[test]
fn test_word_at_position_past_line_end() {
    let text = "SELECT";
    assert_eq!(word_at_position(text, 0, 10), None);
}

#[test]
fn test_word_at_position_underscore() {
    let text = "SELECT user_name FROM users";
    assert_eq!(word_at_position(text, 0, 10), Some("user_name".to_string()));
}

#[test]
fn word_at_position_missing_line() {
    assert_eq!(word_at_position("SELECT 1\n", 5, 0), None);
    assert_eq!(word_at_position("SELECT 1\r\nFROM t", 0, 7), Some("1".to_string()));
}

#[test]
fn word_position_counts_bytes() {
    assert_eq!(word_at_position("é x", 0, 3), Some("x".to_string()));
    assert_eq!(word_at_position("é x", 0, 1), None);
    assert_eq!(word_at_position("é x", 0, 2), None);
    assert_eq!(word_at_position("SELECT ünï, id", 0, 14), Some("id".to_string()));
    assert_eq!(word_at_position("SELECT ünï, id", 0, 13), None);
}
