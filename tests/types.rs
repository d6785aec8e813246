use sqlsift::types::{
    accepts_value, arithmetic_result, comparable_values, function_return_type, is_uuid_literal, string_literal_type,
    type_for_keyword, SqlType, TypeFamily, ValueType,
};
use sqlsift::SqlDialect;

#[test]
fn uuid_literal_shape() {
    assert!(is_uuid_literal("123e4567-e89b-12d3-a456-426614174000"));
    assert!(is_uuid_literal("123E4567-E89B-12D3-A456-426614174000"));
    assert!(!is_uuid_literal("123e4567e89b12d3a456426614174000"));
    assert!(!is_uuid_literal("123e4567-e89b-12d3-a456-42661417400g"));
    assert!(!is_uuid_literal("not-a-uuid"));
    assert!(!is_uuid_literal(""));
}

#[test]
fn uuid_column_accepts_uuid_literal_only() {
    let ok = string_literal_type("123e4567-e89b-12d3-a456-426614174000");
    assert!(accepts_value(&SqlType::Uuid, &ok));
    let bad = string_literal_type("hello");
    assert!(!accepts_value(&SqlType::Uuid, &bad));
    assert!(!accepts_value(&SqlType::Uuid, &ValueType::Typed(SqlType::Integer)));
    assert!(accepts_value(&SqlType::Uuid, &ValueType::Null));
}

#[test]
fn compatibility_relation() {
    assert!(SqlType::Integer.is_compatible_with(&SqlType::BigInt));
    assert!(SqlType::Varchar(Some(10)).is_compatible_with(&SqlType::Text));
    assert!(SqlType::Date.is_compatible_with(&SqlType::TimestampTz));
    assert!(!SqlType::Integer.is_compatible_with(&SqlType::Text));
    assert!(!SqlType::Boolean.is_compatible_with(&SqlType::Integer));
    assert!(SqlType::Unknown.is_compatible_with(&SqlType::Boolean));
    assert!(SqlType::Array(Box::new(SqlType::Integer)).is_compatible_with(&SqlType::Array(Box::new(SqlType::SmallInt))));
    assert!(!SqlType::Array(Box::new(SqlType::Integer)).is_compatible_with(&SqlType::Array(Box::new(SqlType::Text))));
    assert_eq!(SqlType::Jsonb.family(), TypeFamily::Json);
}

#[test]
fn literal_assignment_rules() {
    let text = string_literal_type("Alice");
    assert!(accepts_value(&SqlType::Text, &text));
    assert!(accepts_value(&SqlType::Enum("status".to_string()), &text));
    assert!(!accepts_value(&SqlType::Integer, &text));
    assert!(accepts_value(&SqlType::Integer, &ValueType::Typed(SqlType::Integer)));
    assert!(!accepts_value(&SqlType::Integer, &ValueType::Typed(SqlType::Boolean)));
}

#[test]
fn arithmetic_widens() {
    assert_eq!(arithmetic_result(&SqlType::Integer, &SqlType::BigInt), SqlType::BigInt);
    assert_eq!(arithmetic_result(&SqlType::Double, &SqlType::SmallInt), SqlType::Double);
    assert_eq!(arithmetic_result(&SqlType::Integer, &SqlType::Text), SqlType::Unknown);
}

#[test]
fn builtin_function_types() {
    assert_eq!(function_return_type("count", &vec![]), SqlType::BigInt);
    assert_eq!(function_return_type("SUM", &vec![SqlType::Integer]), SqlType::BigInt);
    assert_eq!(function_return_type("sum", &vec![SqlType::Real]), SqlType::Double);
    assert_eq!(function_return_type("Avg", &vec![SqlType::Integer]), SqlType::Double);
    assert_eq!(function_return_type("max", &vec![SqlType::Date]), SqlType::Date);
    assert_eq!(function_return_type("upper", &vec![SqlType::Text]), SqlType::Text);
    assert_eq!(function_return_type("char_length", &vec![SqlType::Text]), SqlType::Integer);
    assert_eq!(
        function_return_type("coalesce", &vec![SqlType::Unknown, SqlType::Uuid, SqlType::Text]),
        SqlType::Uuid
    );
    assert_eq!(function_return_type("my_func", &vec![SqlType::Text]), SqlType::Unknown);
}

#[test]
fn dialect_type_keywords() {
    assert_eq!(type_for_keyword(SqlDialect::MySQL, "tinyint"), Some(SqlType::TinyInt));
    assert_eq!(type_for_keyword(SqlDialect::MySQL, "MEDIUMINT"), Some(SqlType::MediumInt));
    assert_eq!(type_for_keyword(SqlDialect::MySQL, "mediumtext"), Some(SqlType::Text));
    assert_eq!(type_for_keyword(SqlDialect::PostgreSQL, "tinyint"), None);
    assert_eq!(type_for_keyword(SqlDialect::SQLite, "integer"), Some(SqlType::Integer));
    assert_eq!(type_for_keyword(SqlDialect::PostgreSQL, "serial"), Some(SqlType::Integer));
    assert_eq!(type_for_keyword(SqlDialect::PostgreSQL, "status"), None);
}

#[test]
fn display_names() {
    assert_eq!(SqlType::Integer.display_name(), "integer");
    assert_eq!(SqlType::Array(Box::new(SqlType::Text)).display_name(), "text[]");
    assert_eq!(SqlType::Custom("ENUM".to_string()).display_name(), "ENUM");
}

#[test]
fn comparisons_in_where() {
    let uuid_col = ValueType::Typed(SqlType::Uuid);
    let lit = string_literal_type("123e4567-e89b-12d3-a456-426614174000");
    assert!(comparable_values(&uuid_col, &lit));
    assert!(comparable_values(&lit, &uuid_col));
    let forty_two = ValueType::Typed(SqlType::Integer);
    assert!(!comparable_values(&uuid_col, &forty_two));
    assert!(!comparable_values(&forty_two, &uuid_col));
    assert!(comparable_values(&ValueType::Null, &uuid_col));
    assert!(comparable_values(&string_literal_type("a"), &string_literal_type("b")));
}

#[test]
fn numeric_literal_types() {
    assert_eq!(sqlsift::types::number_literal_type("42"), SqlType::Integer);
    assert_eq!(sqlsift::types::number_literal_type("4.2"), SqlType::Double);
    assert_eq!(sqlsift::types::number_literal_type("1e9"), SqlType::Double);
}

#[test]
fn custom_types_are_not_compatible_with_everything() {
    let custom = SqlType::Custom("GEOMETRY".to_string());
    assert!(!custom.is_compatible_with(&SqlType::Integer));
    assert!(custom.is_compatible_with(&SqlType::Custom("POINT".to_string())));
    assert!(!accepts_value(&custom, &ValueType::Typed(SqlType::Boolean)));
}
