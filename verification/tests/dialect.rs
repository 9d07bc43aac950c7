use open_db_viewer::api::SqlDialect;
use open_db_viewer::dialect::{standard_conforming_strings_from_setting, starts_row_query, PostgreDialect};

#[test]
fn test_quote_identifier() {
    let dialect = PostgreDialect::default();
    assert_eq!(dialect.quote_identifier("users"), "\"users\"");
    assert_eq!(
        dialect.quote_identifier("public.users"),
        "\"public\".\"users\""
    );
    assert_eq!(dialect.quote_identifier("my\"table"), "\"my\"\"table\"");
}

#[test]
fn test_escape_string_literal() {
    let dialect = PostgreDialect::default();
    assert_eq!(dialect.escape_string_literal("hello"), "hello");
    assert_eq!(dialect.escape_string_literal("O'Connor"), "O''Connor");
}

#[test]
fn test_transform_query_limit() {
    let dialect = PostgreDialect::default();
    assert_eq!(
        dialect.transform_query_limit("SELECT * FROM users;", 10, None),
        "SELECT * FROM (SELECT * FROM users) AS _odv_wrapper LIMIT 10"
    );
    assert_eq!(
        dialect.transform_query_limit("SELECT * FROM users", 10, None),
        "SELECT * FROM (SELECT * FROM users) AS _odv_wrapper LIMIT 10"
    );
    assert_eq!(
        dialect.transform_query_limit("SELECT * FROM users", 10, Some(5)),
        "SELECT * FROM (SELECT * FROM users) AS _odv_wrapper LIMIT 10 OFFSET 5"
    );
    assert_eq!(
        dialect.transform_query_limit("INSERT INTO users VALUES (1)", 10, None),
        "INSERT INTO users VALUES (1)"
    );
}

#[test]
fn quote_identifier_edge_cases() {
    let d = PostgreDialect::default();
    assert_eq!(d.quote_identifier(""), "\"\"");
    assert_eq!(d.quote_identifier("a.b.c"), "\"a\".\"b\".\"c\"");
    assert_eq!(d.quote_identifier("a."), "\"a\".\"\"");
    assert_eq!(d.quote_identifier("My Table"), "\"My Table\"");
    assert_eq!(d.quote_identifier("s.\"x\""), "\"s\".\"\"\"x\"\"\"");
}

#[test]
fn escape_without_standard_conforming_strings() {
    let d = PostgreDialect::new(false);
    assert!(!d.standard_conforming_strings());
    assert_eq!(d.escape_string_literal("a\\b'c"), "a\\\\b''c");
    let on = PostgreDialect::new(true);
    assert_eq!(on.escape_string_literal("a\\b'c"), "a\\b''c");
}

#[test]
fn escaping_is_injective_on_examples() {
    let d = PostgreDialect::new(false);
    assert_ne!(d.escape_string_literal("\\'"), d.escape_string_literal("'\\"));
    assert_ne!(d.quote_identifier("a\"b"), d.quote_identifier("a\"\"b"));
}

#[test]
fn type_cast_clause() {
    let d = PostgreDialect::default();
    assert_eq!(d.get_type_cast_clause("JSONB"), Some("::text".to_string()));
    assert_eq!(d.get_type_cast_clause("xml"), Some("::text".to_string()));
    assert_eq!(d.get_type_cast_clause("mood_enum"), Some("::text".to_string()));
    assert_eq!(d.get_type_cast_clause("integer"), None);
}

#[test]
fn transform_query_limit_more_cases() {
    let d = PostgreDialect::default();
    assert_eq!(
        d.transform_query_limit("  with t as (select 1) select * from t ; ", 3, Some(0)),
        "SELECT * FROM (with t as (select 1) select * from t) AS _odv_wrapper LIMIT 3 OFFSET 0"
    );
    assert_eq!(d.transform_query_limit("  update t set a = 1; ", 3, None), "  update t set a = 1; ");
    assert_eq!(
        d.transform_query_limit("Select 1;;", 100, None),
        "SELECT * FROM (Select 1;) AS _odv_wrapper LIMIT 100"
    );
}

#[test]
fn row_query_detection_and_setting() {
    assert!(starts_row_query("select 1"));
    assert!(starts_row_query("with x"));
    assert!(!starts_row_query("delete"));
    assert!(standard_conforming_strings_from_setting("on"));
    assert!(!standard_conforming_strings_from_setting("off"));
    assert!(!standard_conforming_strings_from_setting("ON"));
}
