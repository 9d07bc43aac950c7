//! The driver-facing vocabulary: connection settings, catalog descriptions
//! and the dialect interface that each relational driver provides.

use vstd::prelude::*;

verus! {

/// The two families of drivers.
#[derive(Debug, Clone, Copy, PartialEq, Eq, Structural)]
pub enum DriverKind {
    Relational,
    KeyValue,
}

/// What a driver declares about itself.
#[derive(Debug, Clone)]
pub struct DriverManifest {
    pub id: String,
    pub kind: DriverKind,
    pub display_name: String,
    pub default_port: u16,
}

/// The settings of one saved or ad-hoc connection.
#[derive(Debug, Clone)]
pub struct ConnectionConfig {
    pub id: String,
    pub host: String,
    pub port: u16,
    pub user: Option<String>,
    pub db_name: Option<String>,
    pub password: Option<String>,
}

#[derive(Debug, Clone)]
pub struct SchemaInfo {
    pub name: String,
}

/// The kinds of relation that the catalog browser lists.
#[derive(Debug, Clone, Copy, PartialEq, Eq, Structural)]
pub enum TableKind {
    Regular,
    Partitioned,
    Foreign,
    View,
    MaterializedView,
}

/// Size figures of one relation.
#[derive(Debug, Clone, Copy, PartialEq, Eq, Structural)]
pub struct TableStats {
    pub table_size: i64,
    pub total_size: i64,
    pub estimated_row_count: i64,
}

#[derive(Debug, Clone)]
pub struct TableInfo {
    pub schema: String,
    pub name: String,
    pub oid: u64,
    pub table_kind: TableKind,
    pub description: Option<String>,
    pub stats: Option<TableStats>,
}

#[derive(Debug, Clone)]
pub struct ColumnInfo {
    pub name: String,
    pub data_type: String,
    pub is_nullable: bool,
    pub default_value: Option<String>,
    pub description: Option<String>,
    pub type_oid: u32,
}

#[derive(Debug, Clone)]
pub struct TableSchema {
    pub columns: Vec<ColumnInfo>,
}

/// A table of an entity-relationship diagram.
#[derive(Debug, Clone)]
pub struct SchemaNode {
    pub id: String,
    pub label: String,
    pub columns: Vec<ColumnInfo>,
}

/// A foreign-key link of an entity-relationship diagram, from a column of
/// the source table to a column of the target table.
#[derive(Debug, Clone)]
pub struct SchemaEdge {
    pub id: String,
    pub source: String,
    pub target: String,
    pub source_handle: String,
    pub target_handle: String,
    pub match_type: Option<String>,
    pub update_rule: Option<String>,
    pub delete_rule: Option<String>,
}

#[derive(Debug, Clone)]
pub struct SchemaGraph {
    pub nodes: Vec<SchemaNode>,
    pub edges: Vec<SchemaEdge>,
}

/// The kinds of table constraint.
#[derive(Debug, Clone, Copy, PartialEq, Eq, Structural)]
pub enum ConstraintType {
    PrimaryKey,
    ForeignKey,
    Unique,
    Check,
    Exclusion,
}

/// The options of an execution-plan request.
#[derive(Debug, Clone, Copy, PartialEq, Eq, Structural)]
pub struct ExplainOptions {
    pub analyze: bool,
    pub verbose: bool,
    pub costs: bool,
    pub buffers: bool,
    pub timing: bool,
    pub settings: bool,
}

/// One page of a key scan: the cursor to continue from (zero when the scan
/// is complete) and the keys found.
#[derive(Debug, Clone)]
pub struct ScanResult {
    pub cursor: u64,
    pub keys: Vec<String>,
}

/// A key with its rendered value, its type name and its remaining time to
/// live in seconds, if it expires.
#[derive(Debug, Clone)]
pub struct KeyValue {
    pub key: String,
    pub value: String,
    pub value_type: String,
    pub ttl: Option<i64>,
}

/// A result cell as the exporters see it: SQL null, a text value, or any
/// other JSON value held as its JSON text.
#[derive(Debug, Clone)]
pub enum CellValue {
    Null,
    Text(String),
    Json(String),
}

/// Server statistics by name.
pub struct ServerInfo {
    pub stats: crate::keyed::KeyedList<String>,
}

/// The SQL text rules of one database engine.
pub trait SqlDialect {
    /// The identifier as quoted SQL text.
    fn quote_identifier(&self, ident: &str) -> String;

    /// The value escaped for use inside a single-quoted string literal.
    fn escape_string_literal(&self, val: &str) -> String;

    /// The cast to append to a column of this type when it is compared in a
    /// dynamic condition, if one is needed.
    fn get_type_cast_clause(&self, column_type: &str) -> Option<String>;

    /// The query rewritten to return at most `limit` rows after skipping
    /// `offset` rows, where the engine allows such a rewrite.
    fn transform_query_limit(&self, sql: &str, limit: usize, offset: Option<usize>) -> String;
}

} // verus!
