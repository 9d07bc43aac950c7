use open_db_viewer::api::{CellValue, ColumnInfo, ConnectionConfig, ConstraintType, ExplainOptions, TableKind, TableStats};
use open_db_viewer::postgres::{
    active_sessions_sql, build_table_ddl, cancel_backend_sql, constraint_type_from_contype,
    context_for_purpose, explain_sql, explain_text_bytes, fk_match_type, fk_rule,
    group_columns_into_nodes, initial_active_schema, parse_argument_types, parse_search_path,
    postgres_connection_string, schema_edge, server_version_from_cell, set_active_schema_sql,
    table_infos, table_kind_from_relkind, terminate_backend_sql, value_kind_for_type, view_ddl,
    BatchCollector, ContextRole, PgValueKind, RelationRow, RowEvent,
};

fn config(user: Option<&str>, password: Option<&str>, db: Option<&str>) -> ConnectionConfig {
    ConnectionConfig {
        id: "c1".to_string(),
        host: "localhost".to_string(),
        port: 5432,
        user: user.map(|s| s.to_string()),
        db_name: db.map(|s| s.to_string()),
        password: password.map(|s| s.to_string()),
    }
}

#[test]
fn connection_string() {
    assert_eq!(
        postgres_connection_string(&config(Some("postgres"), Some("secret"), Some("test"))),
        "host=localhost port=5432 user=postgres password=secret dbname=test application_name=open-db-viewer"
    );
    assert_eq!(
        postgres_connection_string(&config(Some(""), None, Some(""))),
        "host=localhost port=5432 application_name=open-db-viewer"
    );
}

#[test]
fn contexts() {
    assert_eq!(context_for_purpose("metadata"), ContextRole::Metadata);
    assert_eq!(context_for_purpose("plan"), ContextRole::Utility);
    assert_eq!(context_for_purpose("cancel"), ContextRole::Utility);
    assert_eq!(context_for_purpose("utility"), ContextRole::Utility);
    assert_eq!(context_for_purpose("query"), ContextRole::Main);
    assert_eq!(initial_active_schema(None), "public");
    assert_eq!(initial_active_schema(Some("app".to_string())), "app");
}

#[test]
fn search_path() {
    assert_eq!(
        parse_search_path(Some("\"$user\", public , \"My Schema\"".to_string())),
        vec!["$user".to_string(), "public".to_string(), "My Schema".to_string()]
    );
    assert_eq!(parse_search_path(None), Vec::<String>::new());
    assert_eq!(parse_search_path(Some(String::new())), vec![String::new()]);
    assert_eq!(
        set_active_schema_sql(&vec!["$user".to_string(), "app".to_string(), "public".to_string()], "app"),
        "SET search_path TO \"app\", $user, public"
    );
    assert_eq!(set_active_schema_sql(&vec![], "my.s"), "SET search_path TO \"my\".\"s\"");
}

#[test]
fn catalog_codes() {
    assert_eq!(table_kind_from_relkind("p"), TableKind::Partitioned);
    assert_eq!(table_kind_from_relkind("f"), TableKind::Foreign);
    assert_eq!(table_kind_from_relkind("v"), TableKind::View);
    assert_eq!(table_kind_from_relkind("m"), TableKind::MaterializedView);
    assert_eq!(table_kind_from_relkind("r"), TableKind::Regular);
    assert_eq!(constraint_type_from_contype("p"), ConstraintType::PrimaryKey);
    assert_eq!(constraint_type_from_contype("u"), ConstraintType::Unique);
    assert_eq!(constraint_type_from_contype("c"), ConstraintType::Check);
    assert_eq!(constraint_type_from_contype("x"), ConstraintType::Exclusion);
    assert_eq!(constraint_type_from_contype("f"), ConstraintType::ForeignKey);
    assert_eq!(fk_match_type("s"), Some("SIMPLE".to_string()));
    assert_eq!(fk_match_type("z"), None);
    assert_eq!(fk_rule("n"), Some("SET_NULL".to_string()));
    assert_eq!(fk_rule("a"), Some("NO_ACTION".to_string()));
    assert_eq!(fk_rule("?"), None);
}

#[test]
fn statements() {
    let none = ExplainOptions { analyze: false, verbose: false, costs: false, buffers: false, timing: false, settings: false };
    assert_eq!(explain_sql("SELECT 1", none), "EXPLAIN (FORMAT JSON) SELECT 1");
    let some = ExplainOptions { analyze: true, verbose: false, costs: true, buffers: false, timing: false, settings: true };
    assert_eq!(explain_sql("SELECT 1", some), "EXPLAIN (FORMAT JSON, ANALYZE, COSTS, SETTINGS) SELECT 1");
    assert!(active_sessions_sql(true).ends_with("WHERE backend_type = 'client backend'"));
    assert!(active_sessions_sql(false).ends_with(" AND (state IS NULL OR state NOT LIKE 'idle%')"));
    assert_eq!(cancel_backend_sql(42), "SELECT pg_catalog.pg_cancel_backend(42)");
    assert_eq!(terminate_backend_sql(-7), "SELECT pg_catalog.pg_terminate_backend(-7)");
    assert_eq!(
        view_ddl("public", "v", Some("SELECT 1;".to_string())).unwrap(),
        "CREATE OR REPLACE VIEW public.v AS\nSELECT 1;"
    );
    assert_eq!(view_ddl("public", "v", None).unwrap_err().message, "View not found");
}

#[test]
fn argument_types() {
    assert_eq!(
        parse_argument_types("a integer, b text DEFAULT 'x', "),
        vec!["a integer".to_string(), "b text DEFAULT 'x'".to_string()]
    );
    assert_eq!(parse_argument_types(""), Vec::<String>::new());
}

fn col(name: &str, ty: &str, nullable: bool, default: Option<&str>) -> ColumnInfo {
    ColumnInfo {
        name: name.to_string(),
        data_type: ty.to_string(),
        is_nullable: nullable,
        default_value: default.map(|s| s.to_string()),
        description: None,
        type_oid: 0,
    }
}

#[test]
fn table_ddl() {
    let cols = vec![col("id", "integer", false, Some("nextval('s')")), col("name", "character varying(20)", true, None)];
    let cons = vec![("users_pkey".to_string(), "PRIMARY KEY (id)".to_string())];
    let idx = vec!["CREATE INDEX i ON public.users USING btree (name)".to_string()];
    assert_eq!(
        build_table_ddl("public", "users", &cols, &cons, &idx),
        "CREATE TABLE public.users (\n    id INTEGER NOT NULL DEFAULT nextval('s'),\n    name CHARACTER VARYING(20),\n    CONSTRAINT users_pkey PRIMARY KEY (id)\n);\n\nCREATE INDEX i ON public.users USING btree (name);"
    );
    assert_eq!(build_table_ddl("s", "t", &vec![], &vec![], &vec![]), "CREATE TABLE s.t (\n\n);");
}

#[test]
fn graph_grouping() {
    let rows = vec![
        ("b".to_string(), col("x", "int4", true, None)),
        ("a".to_string(), col("y", "int4", true, None)),
        ("b".to_string(), col("z", "text", false, None)),
    ];
    let nodes = group_columns_into_nodes(rows);
    assert_eq!(nodes.len(), 2);
    assert_eq!(nodes[0].id, "b");
    assert_eq!(nodes[0].label, "b");
    assert_eq!(nodes[0].columns.iter().map(|c| c.name.clone()).collect::<Vec<_>>(), vec!["x", "z"]);
    assert_eq!(nodes[1].id, "a");
    assert_eq!(nodes[1].columns.len(), 1);
    assert!(group_columns_into_nodes(vec![]).is_empty());

    let e = schema_edge("fk".into(), "t1".into(), "c1".into(), "t2".into(), "c2".into(), "f", "c", "d");
    assert_eq!(e.match_type, Some("FULL".to_string()));
    assert_eq!(e.update_rule, Some("CASCADE".to_string()));
    assert_eq!(e.delete_rule, Some("SET_DEFAULT".to_string()));
    assert_eq!(e.source_handle, "c1");
}

#[test]
fn table_listing() {
    let rows = vec![
        RelationRow { oid: 10, name: "t".into(), relkind: "r".into(), description: None },
        RelationRow { oid: 11, name: "v".into(), relkind: "v".into(), description: Some("d".into()) },
    ];
    let s1 = TableStats { table_size: 1, total_size: 2, estimated_row_count: 3 };
    let s2 = TableStats { table_size: 4, total_size: 5, estimated_row_count: 6 };
    let infos = table_infos("public", rows, &vec![(10, s1), (10, s2)]);
    assert_eq!(infos.len(), 2);
    assert_eq!(infos[0].stats, Some(s2));
    assert_eq!(infos[1].stats, None);
    assert_eq!(infos[1].table_kind, TableKind::View);
    assert_eq!(infos[1].oid, 11);
    assert_eq!(infos[0].schema, "public");
}

#[test]
fn version_and_explain_bytes() {
    assert_eq!(server_version_from_cell(Some(CellValue::Text("PostgreSQL 16".into()))).unwrap(), "PostgreSQL 16");
    assert_eq!(server_version_from_cell(Some(CellValue::Null)).unwrap_err().message, "Failed to query version");
    assert_eq!(server_version_from_cell(None).unwrap_err().message, "Failed to query version");
    assert_eq!(explain_text_bytes(&vec![1, b'[', b']'], true), b"[]".to_vec());
    assert_eq!(explain_text_bytes(&vec![1, b'['], false), vec![1, b'[']);
    assert_eq!(explain_text_bytes(&vec![], true), Vec::<u8>::new());
}

#[test]
fn value_kinds() {
    assert_eq!(value_kind_for_type(16, false, "t"), PgValueKind::Bool);
    assert_eq!(value_kind_for_type(3802, false, "t"), PgValueKind::Json);
    assert_eq!(value_kind_for_type(1184, false, "t"), PgValueKind::Timestamp);
    assert_eq!(value_kind_for_type(99999, true, "t"), PgValueKind::EnumLabel);
    assert_eq!(value_kind_for_type(99999, false, "t"), PgValueKind::Other);
}

#[test]
fn batch_collector() {
    let mut c: BatchCollector<u8> = BatchCollector::new(2);
    assert!(c.wants_more());
    c.accept(RowEvent::Row(1));
    assert!(c.wants_more());
    c.accept(RowEvent::Row(2));
    assert!(!c.wants_more());
    assert_eq!(c.finish(), Ok(Some(vec![1, 2])));

    let mut e: BatchCollector<u8> = BatchCollector::new(5);
    e.accept(RowEvent::End);
    assert!(!e.wants_more());
    assert_eq!(e.finish(), Ok(None));

    let mut f: BatchCollector<u8> = BatchCollector::new(5);
    f.accept(RowEvent::Row(1));
    f.accept(RowEvent::Failed("lost".into()));
    assert_eq!(f.finish(), Err("lost".to_string()));

    assert!(!BatchCollector::<u8>::new(0).wants_more());
}

#[test]
fn value_kinds_of_documented_types() {
    assert_eq!(value_kind_for_type(17, false, "bytea"), PgValueKind::Bytea);
    assert_eq!(value_kind_for_type(26, false, "oid"), PgValueKind::Oid);
    assert_eq!(value_kind_for_type(142, false, "xml"), PgValueKind::Xml);
    assert_eq!(value_kind_for_type(869, false, "inet"), PgValueKind::Inet);
    assert_eq!(value_kind_for_type(650, false, "cidr"), PgValueKind::Inet);
    assert_eq!(value_kind_for_type(829, false, "macaddr"), PgValueKind::MacAddr);
    assert_eq!(value_kind_for_type(790, false, "money"), PgValueKind::Money);
    assert_eq!(value_kind_for_type(1562, false, "varbit"), PgValueKind::Bits);
    assert_eq!(value_kind_for_type(1186, false, "interval"), PgValueKind::Interval);
    assert_eq!(value_kind_for_type(54321, false, "hstore"), PgValueKind::Hstore);
    assert_eq!(value_kind_for_type(54321, false, "box"), PgValueKind::Other);
}
