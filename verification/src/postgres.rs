//! The decisions of the PostgreSQL driver: how it connects, which context
//! serves a request, how catalog codes read, and the SQL text it sends.

use vstd::prelude::*;
use crate::api::{
    CellValue, ColumnInfo, ConnectionConfig, ConstraintType, ExplainOptions, SchemaEdge, SchemaNode,
    TableInfo, TableKind, TableStats,
};
use crate::error::{plain_error, DatabaseError};
use crate::text::{
    chars_of, decimal, join_with, push_chars, push_decimal, push_signed_decimal, signed_decimal,
    split_chars, split_on, str_is, strings_of, string_views, strip_char, strip_char_chars,
    trim, trim_chars, views_of, to_uppercase, uppercase_of,
};

verus! {

// ------------------------------------------------------------------
// Connecting
// ------------------------------------------------------------------

/// ` label=value` when the value is given and not empty, nothing otherwise.
pub open spec fn conn_param(label: Seq<char>, value: Option<String>) -> Seq<char> {
    match value {
        Some(v) => if v@.len() > 0 {
            seq![' '] + label + seq!['='] + v@
        } else {
            Seq::empty()
        },
        None => Seq::empty(),
    }
}

/// The libpq-style connection string for a configuration: host and port,
/// then user, password and database name where given, then the client's
/// application name.
pub open spec fn postgres_conn_string(config: ConnectionConfig) -> Seq<char> {
    "host="@ + config.host@ + " port="@ + decimal(config.port as nat) + conn_param("user"@, config.user)
        + conn_param("password"@, config.password) + conn_param("dbname"@, config.db_name)
        + " application_name=open-db-viewer"@
}

fn push_conn_param(out: &mut String, label: &str, value: &Option<String>)
    ensures
        final(out)@ == old(out)@ + conn_param(label@, *value),
{
    match value {
        Some(v) => {
            let cs = chars_of(v.as_str());
            if cs.len() > 0 {
                out.append(" ");
                out.append(label);
                out.append("=");
                out.append(v.as_str());
                proof {
                    reveal_strlit(" ");
                    reveal_strlit("=");
                }
                assert(final(out)@ =~= old(out)@ + conn_param(label@, *value));
            } else {
                assert(old(out)@ + conn_param(label@, *value) =~= old(out)@);
            }
        },
        None => {
            assert(old(out)@ + conn_param(label@, *value) =~= old(out)@);
        },
    }
}

/// The connection string that the driver hands to the PostgreSQL client.
pub fn postgres_connection_string(config: &ConnectionConfig) -> (s: String)
    ensures
        s@ == postgres_conn_string(*config),
{
    let mut s = String::from_str("host=");
    s.append(config.host.as_str());
    s.append(" port=");
    push_decimal(&mut s, config.port as u64);
    push_conn_param(&mut s, "user", &config.user);
    push_conn_param(&mut s, "password", &config.password);
    push_conn_param(&mut s, "dbname", &config.db_name);
    s.append(" application_name=open-db-viewer");
    s
}

// ------------------------------------------------------------------
// Execution contexts
// ------------------------------------------------------------------

/// The three connections that a driver keeps open.
#[derive(Debug, Clone, Copy, PartialEq, Eq, Structural)]
pub enum ContextRole {
    /// The user's queries.
    Main,
    /// Catalog reads for the object browser.
    Metadata,
    /// Plans, cancellation and other utility work.
    Utility,
}

pub open spec fn role_for_purpose(purpose: Seq<char>) -> ContextRole {
    if purpose == "metadata"@ {
        ContextRole::Metadata
    } else if purpose == "plan"@ || purpose == "utility"@ || purpose == "cancel"@ {
        ContextRole::Utility
    } else {
        ContextRole::Main
    }
}

/// The context that serves a request of the given purpose.
pub fn context_for_purpose(purpose: &str) -> (r: ContextRole)
    ensures
        r == role_for_purpose(purpose@),
{
    if str_is(purpose, "metadata") {
        ContextRole::Metadata
    } else if str_is(purpose, "plan") || str_is(purpose, "utility") || str_is(purpose, "cancel") {
        ContextRole::Utility
    } else {
        ContextRole::Main
    }
}

/// The schema a new context starts in: the server's current schema, or
/// `public` when it reports none.
pub fn initial_active_schema(current_schema: Option<String>) -> (s: String)
    ensures
        s@ == match current_schema {
            Some(c) => c@,
            None => "public"@,
        },
{
    match current_schema {
        Some(c) => c,
        None => String::from_str("public"),
    }
}

/// One entry of a search path: trimmed, then without surrounding double
/// quotes.
pub open spec fn search_path_entry(part: Seq<char>) -> Seq<char> {
    strip_char(trim(part), '"')
}

/// The schemas named by a `search_path` setting, in order.
pub open spec fn search_path_entries(setting: Seq<char>) -> Seq<Seq<char>> {
    split_on(setting, ',').map_values(|p: Seq<char>| search_path_entry(p))
}

/// The search path that `SHOW search_path` reported, or an empty path when
/// it returned no row.
pub fn parse_search_path(setting: Option<String>) -> (r: Vec<String>)
    ensures
        string_views(r@) == match setting {
            Some(s) => search_path_entries(s@),
            None => Seq::empty(),
        },
{
    match setting {
        None => {
            let r: Vec<String> = Vec::new();
            assert(string_views(r@) =~= Seq::<Seq<char>>::empty());
            r
        },
        Some(s) => {
            let cs = chars_of(s.as_str());
            let parts = split_chars(&cs, ',');
            let mut cleaned: Vec<Vec<char>> = Vec::new();
            let n = parts.len();
            for i in 0..n
                invariant
                    n == parts@.len(),
                    views_of(parts@) == split_on(s@, ','),
                    views_of(cleaned@) == views_of(parts@.take(i as int)).map_values(
                        |p: Seq<char>| search_path_entry(p),
                    ),
            {
                let t = trim_chars(&parts[i]);
                let e = strip_char_chars(&t, '"');
                let ghost before = cleaned@;
                cleaned.push(e);
                assert(views_of(cleaned@) =~= views_of(before).push(e@));
                assert(views_of(parts@.take(i + 1)) =~= views_of(parts@.take(i as int)).push(parts@[i as int]@));
                assert(views_of(parts@.take(i + 1)).map_values(|p: Seq<char>| search_path_entry(p))
                    =~= views_of(parts@.take(i as int)).map_values(|p: Seq<char>| search_path_entry(p)).push(search_path_entry(parts@[i as int]@)));
            }
            assert(parts@.take(n as int) =~= parts@);
            let r = strings_of(&cleaned);
            assert(views_of(cleaned@) =~= search_path_entries(s@));
            r
        },
    }
}

/// The search path that makes `schema` active: the schema quoted, first,
/// then the other entries of the current path in order.
pub open spec fn search_path_with(current: Seq<Seq<char>>, schema: Seq<char>) -> Seq<char> {
    join_with(
        seq![crate::dialect::quoted_identifier(schema)] + current.filter(|e: Seq<char>| e != schema),
        ", "@,
    )
}

/// The statement that puts `schema` at the front of the search path.
pub fn set_active_schema_sql(current: &Vec<String>, schema: &str) -> (s: String)
    ensures
        s@ == "SET search_path TO "@ + search_path_with(string_views(current@), schema@),
{
    let d = crate::dialect::PostgreDialect::default();
    let q = crate::api::SqlDialect::quote_identifier(&d, schema);
    let mut parts: Vec<Vec<char>> = Vec::new();
    parts.push(chars_of(q.as_str()));
    let ghost cur = string_views(current@);
    let ghost keep = |e: Seq<char>| e != schema@;
    assert(views_of(parts@) =~= seq![crate::dialect::quoted_identifier(schema@)] + cur.take(0).filter(keep));
    let n = current.len();
    for i in 0..n
        invariant
            n == current@.len(),
            cur == string_views(current@),
            keep == (|e: Seq<char>| e != schema@),
            views_of(parts@) == seq![crate::dialect::quoted_identifier(schema@)] + cur.take(i as int).filter(keep),
    {
        proof {
            assert(cur.take(i + 1).drop_last() =~= cur.take(i as int));
            assert(cur.take(i + 1).last() == current@[i as int]@);
            reveal(Seq::filter);
        }
        if !str_is(current[i].as_str(), schema) {
            let ghost before = parts@;
            parts.push(chars_of(current[i].as_str()));
            assert(views_of(parts@) =~= views_of(before).push(current@[i as int]@));
        }
    }
    assert(cur.take(n as int) =~= cur);
    let mut s = String::from_str("SET search_path TO ");
    let sep = chars_of(", ");
    crate::text::push_joined(&mut s, &parts, &sep);
    s
}

// ------------------------------------------------------------------
// Catalog codes
// ------------------------------------------------------------------

pub open spec fn kind_of_relkind(relkind: Seq<char>) -> TableKind {
    if relkind == "p"@ {
        TableKind::Partitioned
    } else if relkind == "f"@ {
        TableKind::Foreign
    } else if relkind == "v"@ {
        TableKind::View
    } else if relkind == "m"@ {
        TableKind::MaterializedView
    } else {
        TableKind::Regular
    }
}

/// The kind of relation that a `pg_class.relkind` code denotes; ordinary
/// tables for every other code.
pub fn table_kind_from_relkind(relkind: &str) -> (k: TableKind)
    ensures
        k == kind_of_relkind(relkind@),
{
    if str_is(relkind, "p") {
        TableKind::Partitioned
    } else if str_is(relkind, "f") {
        TableKind::Foreign
    } else if str_is(relkind, "v") {
        TableKind::View
    } else if str_is(relkind, "m") {
        TableKind::MaterializedView
    } else {
        TableKind::Regular
    }
}

pub open spec fn kind_of_contype(contype: Seq<char>) -> ConstraintType {
    if contype == "p"@ {
        ConstraintType::PrimaryKey
    } else if contype == "u"@ {
        ConstraintType::Unique
    } else if contype == "c"@ {
        ConstraintType::Check
    } else if contype == "x"@ {
        ConstraintType::Exclusion
    } else {
        ConstraintType::ForeignKey
    }
}

/// The kind of constraint that a `pg_constraint.contype` code denotes;
/// foreign keys for every other code.
pub fn constraint_type_from_contype(contype: &str) -> (k: ConstraintType)
    ensures
        k == kind_of_contype(contype@),
{
    if str_is(contype, "p") {
        ConstraintType::PrimaryKey
    } else if str_is(contype, "u") {
        ConstraintType::Unique
    } else if str_is(contype, "c") {
        ConstraintType::Check
    } else if str_is(contype, "x") {
        ConstraintType::Exclusion
    } else {
        ConstraintType::ForeignKey
    }
}

pub open spec fn match_type_name(code: Seq<char>) -> Option<Seq<char>> {
    if code == "f"@ {
        Some("FULL"@)
    } else if code == "p"@ {
        Some("PARTIAL"@)
    } else if code == "s"@ {
        Some("SIMPLE"@)
    } else {
        None
    }
}

pub open spec fn option_view(o: Option<String>) -> Option<Seq<char>> {
    match o {
        Some(s) => Some(s@),
        None => None,
    }
}

/// The match type of a foreign key from its `confmatchtype` code.
pub fn fk_match_type(code: &str) -> (r: Option<String>)
    ensures
        option_view(r) == match_type_name(code@),
{
    if str_is(code, "f") {
        Some(String::from_str("FULL"))
    } else if str_is(code, "p") {
        Some(String::from_str("PARTIAL"))
    } else if str_is(code, "s") {
        Some(String::from_str("SIMPLE"))
    } else {
        None
    }
}

pub open spec fn rule_name(code: Seq<char>) -> Option<Seq<char>> {
    if code == "c"@ {
        Some("CASCADE"@)
    } else if code == "r"@ {
        Some("RESTRICT"@)
    } else if code == "n"@ {
        Some("SET_NULL"@)
    } else if code == "d"@ {
        Some("SET_DEFAULT"@)
    } else if code == "a"@ {
        Some("NO_ACTION"@)
    } else {
        None
    }
}

/// The update or delete rule of a foreign key from its `confupdtype` or
/// `confdeltype` code.
pub fn fk_rule(code: &str) -> (r: Option<String>)
    ensures
        option_view(r) == rule_name(code@),
{
    if str_is(code, "c") {
        Some(String::from_str("CASCADE"))
    } else if str_is(code, "r") {
        Some(String::from_str("RESTRICT"))
    } else if str_is(code, "n") {
        Some(String::from_str("SET_NULL"))
    } else if str_is(code, "d") {
        Some(String::from_str("SET_DEFAULT"))
    } else if str_is(code, "a") {
        Some(String::from_str("NO_ACTION"))
    } else {
        None
    }
}

// ------------------------------------------------------------------
// Statements
// ------------------------------------------------------------------

/// The EXPLAIN options in the order the driver lists them, JSON output
/// first.
pub open spec fn explain_option_list(o: ExplainOptions) -> Seq<Seq<char>> {
    let l0 = seq!["FORMAT JSON"@];
    let l1 = if o.analyze { l0.push("ANALYZE"@) } else { l0 };
    let l2 = if o.verbose { l1.push("VERBOSE"@) } else { l1 };
    let l3 = if o.costs { l2.push("COSTS"@) } else { l2 };
    let l4 = if o.buffers { l3.push("BUFFERS"@) } else { l3 };
    let l5 = if o.timing { l4.push("TIMING"@) } else { l4 };
    if o.settings { l5.push("SETTINGS"@) } else { l5 }
}

pub open spec fn explain_statement(sql: Seq<char>, o: ExplainOptions) -> Seq<char> {
    "EXPLAIN ("@ + join_with(explain_option_list(o), ", "@) + ") "@ + sql
}

fn push_option(opts: &mut Vec<Vec<char>>, on: bool, name: &str)
    ensures
        views_of(final(opts)@) == if on {
            views_of(old(opts)@).push(name@)
        } else {
            views_of(old(opts)@)
        },
{
    if on {
        let ghost before = opts@;
        opts.push(chars_of(name));
        assert(views_of(opts@) =~= views_of(before).push(name@));
    }
}

/// The EXPLAIN statement for a query with the requested options.
pub fn explain_sql(sql: &str, options: ExplainOptions) -> (s: String)
    ensures
        s@ == explain_statement(sql@, options),
{
    let mut opts: Vec<Vec<char>> = Vec::new();
    opts.push(chars_of("FORMAT JSON"));
    assert(views_of(opts@) =~= seq!["FORMAT JSON"@]);
    push_option(&mut opts, options.analyze, "ANALYZE");
    push_option(&mut opts, options.verbose, "VERBOSE");
    push_option(&mut opts, options.costs, "COSTS");
    push_option(&mut opts, options.buffers, "BUFFERS");
    push_option(&mut opts, options.timing, "TIMING");
    push_option(&mut opts, options.settings, "SETTINGS");
    let mut s = String::from_str("EXPLAIN (");
    let sep = chars_of(", ");
    crate::text::push_joined(&mut s, &opts, &sep);
    s.append(") ");
    s.append(sql);
    s
}

/// The catalog query for client sessions, without idle ones unless asked.
pub open spec fn sessions_statement(show_idle: bool) -> Seq<char> {
    let base = "SELECT pid, usename::text, query::text, state::text, query_start::text, client_addr::text FROM pg_catalog.pg_stat_activity WHERE backend_type = 'client backend'"@;
    if show_idle {
        base
    } else {
        base + " AND (state IS NULL OR state NOT LIKE 'idle%')"@
    }
}

pub fn active_sessions_sql(show_idle: bool) -> (s: String)
    ensures
        s@ == sessions_statement(show_idle),
{
    let mut s = String::from_str(
        "SELECT pid, usename::text, query::text, state::text, query_start::text, client_addr::text FROM pg_catalog.pg_stat_activity WHERE backend_type = 'client backend'",
    );
    if !show_idle {
        s.append(" AND (state IS NULL OR state NOT LIKE 'idle%')");
    }
    s
}

/// The statement that cancels the current query of a backend.
pub fn cancel_backend_sql(pid: i32) -> (s: String)
    ensures
        s@ == "SELECT pg_catalog.pg_cancel_backend("@ + signed_decimal(pid as int) + ")"@,
{
    let mut s = String::from_str("SELECT pg_catalog.pg_cancel_backend(");
    push_signed_decimal(&mut s, pid);
    s.append(")");
    s
}

/// The statement that terminates a backend.
pub fn terminate_backend_sql(pid: i32) -> (s: String)
    ensures
        s@ == "SELECT pg_catalog.pg_terminate_backend("@ + signed_decimal(pid as int) + ")"@,
{
    let mut s = String::from_str("SELECT pg_catalog.pg_terminate_backend(");
    push_signed_decimal(&mut s, pid);
    s.append(")");
    s
}

/// The DDL of a view from its definition, or the not-found error when the
/// catalog returned no definition.
pub fn view_ddl(schema: &str, view: &str, definition: Option<String>) -> (r: Result<String, DatabaseError>)
    ensures
        match definition {
            Some(d) => r matches Ok(t) && t@ == "CREATE OR REPLACE VIEW "@ + schema@ + "."@ + view@
                + " AS\n"@ + d@,
            None => r matches Err(e) && e.message@ == "View not found"@ && e == plain_error(e.message),
        },
{
    match definition {
        Some(d) => {
            let mut s = String::from_str("CREATE OR REPLACE VIEW ");
            s.append(schema);
            s.append(".");
            s.append(view);
            s.append(" AS\n");
            s.append(d.as_str());
            Ok(s)
        },
        None => Err(DatabaseError::new(String::from_str("View not found"))),
    }
}


// ------------------------------------------------------------------
// Function signatures
// ------------------------------------------------------------------

/// The trimmed, non-empty pieces of `parts`, in order.
pub open spec fn nonempty_trimmed(parts: Seq<Seq<char>>) -> Seq<Seq<char>>
    decreases parts.len(),
{
    if parts.len() == 0 {
        Seq::empty()
    } else {
        let front = nonempty_trimmed(parts.drop_last());
        let t = trim(parts.last());
        if t.len() > 0 {
            front.push(t)
        } else {
            front
        }
    }
}

/// The argument types of a function from the comma-separated text that
/// `pg_get_function_arguments` returns.
pub open spec fn argument_types_of(text: Seq<char>) -> Seq<Seq<char>> {
    nonempty_trimmed(split_on(text, ','))
}

pub fn parse_argument_types(text: &str) -> (r: Vec<String>)
    ensures
        string_views(r@) == argument_types_of(text@),
{
    let cs = chars_of(text);
    let parts = split_chars(&cs, ',');
    let mut kept: Vec<Vec<char>> = Vec::new();
    let n = parts.len();
    for i in 0..n
        invariant
            n == parts@.len(),
            views_of(parts@) == split_on(text@, ','),
            views_of(kept@) == nonempty_trimmed(views_of(parts@.take(i as int))),
    {
        assert(views_of(parts@.take(i + 1)).drop_last() =~= views_of(parts@.take(i as int)));
        assert(views_of(parts@.take(i + 1)).last() == parts@[i as int]@);
        let t = trim_chars(&parts[i]);
        if t.len() > 0 {
            let ghost before = kept@;
            kept.push(t);
            assert(views_of(kept@) =~= views_of(before).push(t@));
        }
    }
    assert(parts@.take(n as int) =~= parts@);
    strings_of(&kept)
}

// ------------------------------------------------------------------
// Table DDL
// ------------------------------------------------------------------

/// One column line of a CREATE TABLE statement.
pub open spec fn column_def(c: ColumnInfo) -> Seq<char> {
    "    "@ + c.name@ + " "@ + uppercase_of(c.data_type@) + (if !c.is_nullable {
        " NOT NULL"@
    } else {
        Seq::empty()
    }) + match c.default_value {
        Some(d) => " DEFAULT "@ + d@,
        None => Seq::empty(),
    }
}

/// One constraint line of a CREATE TABLE statement.
pub open spec fn constraint_def(c: (String, String)) -> Seq<char> {
    "    CONSTRAINT "@ + c.0@ + " "@ + c.1@
}

/// The index definitions that follow the table, each as its own statement.
pub open spec fn index_statements(defs: Seq<String>) -> Seq<char>
    decreases defs.len(),
{
    if defs.len() == 0 {
        Seq::empty()
    } else {
        index_statements(defs.drop_last()) + "\n\n"@ + defs.last()@ + ";"@
    }
}

/// The CREATE TABLE statement: the columns, then the constraints, one per
/// line; then the table's other indexes.
pub open spec fn table_ddl(
    schema: Seq<char>,
    table: Seq<char>,
    columns: Seq<ColumnInfo>,
    constraints: Seq<(String, String)>,
    index_defs: Seq<String>,
) -> Seq<char> {
    "CREATE TABLE "@ + schema + "."@ + table + " (\n"@ + join_with(
        columns.map_values(|c: ColumnInfo| column_def(c)) + constraints.map_values(
            |c: (String, String)| constraint_def(c),
        ),
        ",\n"@,
    ) + "\n);"@ + index_statements(index_defs)
}

fn column_line(c: &ColumnInfo) -> (r: Vec<char>)
    ensures
        r@ == column_def(*c),
{
    let mut s = String::from_str("    ");
    s.append(c.name.as_str());
    s.append(" ");
    let upper = to_uppercase(c.data_type.as_str());
    s.append(upper.as_str());
    if !c.is_nullable {
        s.append(" NOT NULL");
    }
    match &c.default_value {
        Some(d) => {
            s.append(" DEFAULT ");
            s.append(d.as_str());
        },
        None => {},
    }
    let r = chars_of(s.as_str());
    assert(r@ =~= column_def(*c));
    r
}

/// The DDL of a table from its columns, its constraints as (name,
/// definition) pairs and the definitions of its non-primary indexes.
pub fn build_table_ddl(
    schema: &str,
    table: &str,
    columns: &Vec<ColumnInfo>,
    constraints: &Vec<(String, String)>,
    index_defs: &Vec<String>,
) -> (s: String)
    ensures
        s@ == table_ddl(schema@, table@, columns@, constraints@, index_defs@),
{
    let mut parts: Vec<Vec<char>> = Vec::new();
    let nc = columns.len();
    for i in 0..nc
        invariant
            nc == columns@.len(),
            views_of(parts@) == columns@.take(i as int).map_values(|c: ColumnInfo| column_def(c)),
    {
        let line = column_line(&columns[i]);
        let ghost before = parts@;
        parts.push(line);
        assert(views_of(parts@) =~= views_of(before).push(line@));
        assert(columns@.take(i + 1).map_values(|c: ColumnInfo| column_def(c)) =~= columns@.take(
            i as int,
        ).map_values(|c: ColumnInfo| column_def(c)).push(column_def(columns@[i as int])));
    }
    assert(columns@.take(nc as int) =~= columns@);
    let ghost col_lines = views_of(parts@);
    let nk = constraints.len();
    for i in 0..nk
        invariant
            nk == constraints@.len(),
            views_of(parts@) == col_lines + constraints@.take(i as int).map_values(
                |c: (String, String)| constraint_def(c),
            ),
    {
        let mut line = String::from_str("    CONSTRAINT ");
        line.append(constraints[i].0.as_str());
        line.append(" ");
        line.append(constraints[i].1.as_str());
        let l = chars_of(line.as_str());
        assert(l@ =~= constraint_def(constraints@[i as int]));
        let ghost before = parts@;
        parts.push(l);
        assert(views_of(parts@) =~= views_of(before).push(l@));
        assert(constraints@.take(i + 1).map_values(|c: (String, String)| constraint_def(c))
            =~= constraints@.take(i as int).map_values(|c: (String, String)| constraint_def(c)).push(
            constraint_def(constraints@[i as int]),
        ));
    }
    assert(constraints@.take(nk as int) =~= constraints@);
    let mut s = String::from_str("CREATE TABLE ");
    s.append(schema);
    s.append(".");
    s.append(table);
    s.append(" (\n");
    let sep = chars_of(",\n");
    crate::text::push_joined(&mut s, &parts, &sep);
    s.append("\n);");
    let ghost head = s@;
    let ni = index_defs.len();
    for i in 0..ni
        invariant
            ni == index_defs@.len(),
            s@ == head + index_statements(index_defs@.take(i as int)),
    {
        assert(index_defs@.take(i + 1).drop_last() =~= index_defs@.take(i as int));
        s.append("\n\n");
        s.append(index_defs[i].as_str());
        s.append(";");
    }
    assert(index_defs@.take(ni as int) =~= index_defs@);
    s
}

// ------------------------------------------------------------------
// Entity-relationship graph
// ------------------------------------------------------------------

/// The columns that belong to table `t`, in the order the rows list them.
pub open spec fn columns_of_table(rows: Seq<(String, ColumnInfo)>, t: Seq<char>) -> Seq<ColumnInfo>
    decreases rows.len(),
{
    if rows.len() == 0 {
        Seq::empty()
    } else {
        let front = columns_of_table(rows.drop_last(), t);
        if rows.last().0@ == t {
            front.push(rows.last().1)
        } else {
            front
        }
    }
}

/// No table appears as two nodes.
#[verifier::opaque]
pub open spec fn node_ids_distinct(nodes: Seq<SchemaNode>) -> bool {
    forall|i: int, j: int|
        0 <= i < j < nodes.len() ==> #[trigger] nodes[i].id@ != #[trigger] nodes[j].id@
}

/// Each node is labelled with its table's name and holds exactly that
/// table's columns, in row order.
#[verifier::opaque]
pub open spec fn nodes_hold_columns(nodes: Seq<SchemaNode>, rows: Seq<(String, ColumnInfo)>) -> bool {
    forall|i: int|
        0 <= i < nodes.len() ==> {
            &&& (#[trigger] nodes[i]).label@ == nodes[i].id@
            &&& nodes[i].columns@ == columns_of_table(rows, nodes[i].id@)
        }
}

/// Every table that a row names has a node.
#[verifier::opaque]
pub open spec fn rows_have_nodes(nodes: Seq<SchemaNode>, rows: Seq<(String, ColumnInfo)>) -> bool {
    forall|k: int|
        0 <= k < rows.len() ==> exists|i: int|
            0 <= i < nodes.len() && (#[trigger] nodes[i]).id@ == (#[trigger] rows[k]).0@
}

/// Every node stands for a table that some row names.
#[verifier::opaque]
pub open spec fn nodes_have_rows(nodes: Seq<SchemaNode>, rows: Seq<(String, ColumnInfo)>) -> bool {
    forall|i: int|
        0 <= i < nodes.len() ==> exists|k: int|
            0 <= k < rows.len() && (#[trigger] nodes[i]).id@ == (#[trigger] rows[k]).0@
}

/// The diagram nodes built from (table, column) rows: one node per table,
/// named after it, holding that table's columns in row order; no table
/// twice.
pub open spec fn nodes_group_rows(nodes: Seq<SchemaNode>, rows: Seq<(String, ColumnInfo)>) -> bool {
    &&& node_ids_distinct(nodes)
    &&& nodes_hold_columns(nodes, rows)
    &&& rows_have_nodes(nodes, rows)
    &&& nodes_have_rows(nodes, rows)
}

proof fn lemma_columns_of_other_table(rows: Seq<(String, ColumnInfo)>, row: (String, ColumnInfo), t: Seq<char>)
    ensures
        columns_of_table(rows.push(row), t) == if row.0@ == t {
            columns_of_table(rows, t).push(row.1)
        } else {
            columns_of_table(rows, t)
        },
{
    assert(rows.push(row).drop_last() =~= rows);
}

proof fn lemma_columns_of_absent_table(rows: Seq<(String, ColumnInfo)>, t: Seq<char>)
    requires
        forall|k: int| 0 <= k < rows.len() ==> (#[trigger] rows[k]).0@ != t,
    ensures
        columns_of_table(rows, t) == Seq::<ColumnInfo>::empty(),
    decreases rows.len(),
{
    if rows.len() > 0 {
        let front = rows.drop_last();
        assert forall|k: int| 0 <= k < front.len() implies (#[trigger] front[k]).0@ != t by {
            assert(front[k] == rows[k]);
        }
        lemma_columns_of_absent_table(front, t);
        assert(rows.last() == rows[rows.len() - 1]);
    }
}

fn find_node(nodes: &Vec<SchemaNode>, t: &String) -> (r: Option<usize>)
    ensures
        match r {
            Some(k) => k < nodes@.len() && nodes@[k as int].id@ == t@,
            None => forall|i: int| 0 <= i < nodes@.len() ==> (#[trigger] nodes@[i]).id@ != t@,
        },
{
    let n = nodes.len();
    for i in 0..n
        invariant
            n == nodes@.len(),
            forall|j: int| 0 <= j < i ==> (#[trigger] nodes@[j]).id@ != t@,
    {
        if nodes[i].id == *t {
            return Some(i);
        }
    }
    None
}

/// The relation between the node lists before and after a column is added
/// to node `k`.
pub open spec fn column_added(
    old_nodes: Seq<SchemaNode>,
    new_nodes: Seq<SchemaNode>,
    k: int,
    c: ColumnInfo,
) -> bool {
    &&& 0 <= k < old_nodes.len()
    &&& new_nodes.len() == old_nodes.len()
    &&& forall|m: int| 0 <= m < new_nodes.len() && m != k ==> new_nodes[m] == old_nodes[m]
    &&& new_nodes[k].id == old_nodes[k].id
    &&& new_nodes[k].label == old_nodes[k].label
    &&& new_nodes[k].columns@ == old_nodes[k].columns@.push(c)
}

proof fn lemma_add_to_node_distinct(old_nodes: Seq<SchemaNode>, new_nodes: Seq<SchemaNode>, k: int, c: ColumnInfo)
    requires
        node_ids_distinct(old_nodes),
        column_added(old_nodes, new_nodes, k, c),
    ensures
        node_ids_distinct(new_nodes),
{
    reveal(node_ids_distinct);
    assert forall|a: int, b: int| 0 <= a < b < new_nodes.len() implies #[trigger] new_nodes[a].id@
        != #[trigger] new_nodes[b].id@ by {
        assert(new_nodes[a].id@ == old_nodes[a].id@);
        assert(new_nodes[b].id@ == old_nodes[b].id@);
    }
}

proof fn lemma_add_to_node_columns(
    old_nodes: Seq<SchemaNode>,
    new_nodes: Seq<SchemaNode>,
    k: int,
    row: (String, ColumnInfo),
    prev: Seq<(String, ColumnInfo)>,
)
    requires
        node_ids_distinct(old_nodes),
        nodes_hold_columns(old_nodes, prev),
        column_added(old_nodes, new_nodes, k, row.1),
        old_nodes[k].id@ == row.0@,
    ensures
        nodes_hold_columns(new_nodes, prev.push(row)),
{
    reveal(nodes_hold_columns);
    reveal(node_ids_distinct);
    let all1 = prev.push(row);
    assert forall|m: int| 0 <= m < new_nodes.len() implies {
        &&& (#[trigger] new_nodes[m]).label@ == new_nodes[m].id@
        &&& new_nodes[m].columns@ == columns_of_table(all1, new_nodes[m].id@)
    } by {
        lemma_columns_of_other_table(prev, row, new_nodes[m].id@);
        assert(old_nodes[m].label@ == old_nodes[m].id@);
        if m != k {
            if m < k {
                assert(old_nodes[m].id@ != old_nodes[k].id@);
            } else {
                assert(old_nodes[k].id@ != old_nodes[m].id@);
            }
        }
    }
}

proof fn lemma_add_to_node_cover(
    old_nodes: Seq<SchemaNode>,
    new_nodes: Seq<SchemaNode>,
    k: int,
    row: (String, ColumnInfo),
    prev: Seq<(String, ColumnInfo)>,
)
    requires
        rows_have_nodes(old_nodes, prev),
        nodes_have_rows(old_nodes, prev),
        column_added(old_nodes, new_nodes, k, row.1),
        old_nodes[k].id@ == row.0@,
    ensures
        rows_have_nodes(new_nodes, prev.push(row)),
        nodes_have_rows(new_nodes, prev.push(row)),
{
    reveal(rows_have_nodes);
    reveal(nodes_have_rows);
    let all1 = prev.push(row);
    assert forall|kk: int| 0 <= kk < all1.len() implies exists|m: int|
        0 <= m < new_nodes.len() && (#[trigger] new_nodes[m]).id@ == (#[trigger] all1[kk]).0@ by {
        if kk < prev.len() {
            assert(all1[kk] == prev[kk]);
            let m = choose|m: int| 0 <= m < old_nodes.len() && (#[trigger] old_nodes[m]).id@ == (#[trigger] prev[kk]).0@;
            assert(new_nodes[m].id@ == old_nodes[m].id@);
        } else {
            assert(new_nodes[k].id@ == all1[kk].0@);
        }
    }
    assert forall|m: int| 0 <= m < new_nodes.len() implies exists|kk: int|
        0 <= kk < all1.len() && (#[trigger] new_nodes[m]).id@ == (#[trigger] all1[kk]).0@ by {
        assert(new_nodes[m].id@ == old_nodes[m].id@);
        let kk = choose|kk: int| 0 <= kk < prev.len() && (#[trigger] old_nodes[m]).id@ == (#[trigger] prev[kk]).0@;
        assert(all1[kk] == prev[kk]);
    }
}

fn add_to_node(
    nodes: &mut Vec<SchemaNode>,
    k: usize,
    row: (String, ColumnInfo),
    Ghost(prev): Ghost<Seq<(String, ColumnInfo)>>,
)
    requires
        nodes_group_rows(old(nodes)@, prev),
        k < old(nodes)@.len(),
        old(nodes)@[k as int].id@ == row.0@,
    ensures
        nodes_group_rows(final(nodes)@, prev.push(row)),
{
    let ghost old_nodes = nodes@;
    let ghost r = row;
    let (t, c) = row;
    let mut node = nodes.remove(k);
    node.columns.push(c);
    let ghost new_node = node;
    nodes.insert(k, node);
    assert(nodes@ =~= old_nodes.update(k as int, new_node));
    assert(column_added(old_nodes, nodes@, k as int, r.1));
    proof {
        lemma_add_to_node_distinct(old_nodes, nodes@, k as int, r.1);
        lemma_add_to_node_columns(old_nodes, nodes@, k as int, r, prev);
        lemma_add_to_node_cover(old_nodes, nodes@, k as int, r, prev);
    }
}

fn add_new_node(
    nodes: &mut Vec<SchemaNode>,
    row: (String, ColumnInfo),
    Ghost(prev): Ghost<Seq<(String, ColumnInfo)>>,
)
    requires
        nodes_group_rows(old(nodes)@, prev),
        forall|i: int| 0 <= i < old(nodes)@.len() ==> (#[trigger] old(nodes)@[i]).id@ != row.0@,
    ensures
        nodes_group_rows(final(nodes)@, prev.push(row)),
{
    reveal(node_ids_distinct);
    reveal(nodes_hold_columns);
    reveal(rows_have_nodes);
    reveal(nodes_have_rows);
    let ghost old_nodes = nodes@;
    let ghost all1 = prev.push(row);
    proof {
        assert forall|kk: int| 0 <= kk < prev.len() implies (#[trigger] prev[kk]).0@ != row.0@ by {
            if prev[kk].0@ == row.0@ {
                let m = choose|m: int| 0 <= m < old_nodes.len() && (#[trigger] old_nodes[m]).id@ == (#[trigger] prev[kk]).0@;
            }
        }
        lemma_columns_of_absent_table(prev, row.0@);
        lemma_columns_of_other_table(prev, row, row.0@);
    }
    let (t, c) = row;
    let label = t.clone();
    let mut cols: Vec<ColumnInfo> = Vec::new();
    cols.push(c);
    let node = SchemaNode { id: t, label, columns: cols };
    nodes.push(node);
    assert(nodes@[old_nodes.len() as int].columns@ =~= columns_of_table(all1, row.0@));
    assert forall|m: int| 0 <= m < nodes@.len() implies {
        &&& (#[trigger] nodes@[m]).label@ == nodes@[m].id@
        &&& nodes@[m].columns@ == columns_of_table(all1, nodes@[m].id@)
    } by {
        lemma_columns_of_other_table(prev, row, nodes@[m].id@);
        if m < old_nodes.len() {
            assert(nodes@[m] == old_nodes[m]);
        }
    }
    assert forall|a: int, b: int| 0 <= a < b < nodes@.len() implies #[trigger] nodes@[a].id@
        != #[trigger] nodes@[b].id@ by {
        assert(nodes@[a] == old_nodes[a]);
        if b < old_nodes.len() {
            assert(nodes@[b] == old_nodes[b]);
        }
    }
    assert forall|kk: int| 0 <= kk < all1.len() implies exists|m: int|
        0 <= m < nodes@.len() && (#[trigger] nodes@[m]).id@ == (#[trigger] all1[kk]).0@ by {
        if kk < prev.len() {
            assert(all1[kk] == prev[kk]);
            let m = choose|m: int| 0 <= m < old_nodes.len() && (#[trigger] old_nodes[m]).id@ == (#[trigger] prev[kk]).0@;
            assert(nodes@[m] == old_nodes[m]);
        } else {
            assert(nodes@[old_nodes.len() as int].id@ == all1[kk].0@);
        }
    }
    assert forall|m: int| 0 <= m < nodes@.len() implies exists|kk: int|
        0 <= kk < all1.len() && (#[trigger] nodes@[m]).id@ == (#[trigger] all1[kk]).0@ by {
        if m < old_nodes.len() {
            assert(nodes@[m] == old_nodes[m]);
            let kk = choose|kk: int| 0 <= kk < prev.len() && (#[trigger] old_nodes[m]).id@ == (#[trigger] prev[kk]).0@;
            assert(all1[kk] == prev[kk]);
        } else {
            assert(all1[prev.len() as int] == row);
        }
    }
}

/// Groups (table, column) rows into diagram nodes, one per table in order of
/// first appearance.
pub fn group_columns_into_nodes(rows: Vec<(String, ColumnInfo)>) -> (nodes: Vec<SchemaNode>)
    ensures
        nodes_group_rows(nodes@, rows@),
{
    let ghost all = rows@;
    let total = rows.len();
    let mut rest = rows;
    let mut nodes: Vec<SchemaNode> = Vec::new();
    let mut i: usize = 0;
    assert(all.skip(0) =~= all);
    assert(nodes_group_rows(nodes@, all.take(0))) by {
        reveal(node_ids_distinct);
        reveal(nodes_hold_columns);
        reveal(rows_have_nodes);
        reveal(nodes_have_rows);
    }
    while rest.len() > 0
        invariant
            i <= all.len(),
            total == all.len(),
            rest@ == all.skip(i as int),
            nodes_group_rows(nodes@, all.take(i as int)),
        decreases rest@.len(),
    {
        let row = rest.remove(0);
        let ghost prev = all.take(i as int);
        assert(row == all[i as int]);
        assert(all.take(i + 1) =~= prev.push(row));
        match find_node(&nodes, &row.0) {
            Some(k) => add_to_node(&mut nodes, k, row, Ghost(prev)),
            None => add_new_node(&mut nodes, row, Ghost(prev)),
        }
        assert(rest@ =~= all.skip(i + 1));
        i = i + 1;
    }
    assert(all.take(i as int) =~= all);
    nodes
}

/// A diagram edge for one column pair of a foreign key, with the match type
/// and rules read from their catalog codes.
pub fn schema_edge(
    constraint_name: String,
    source_table: String,
    source_column: String,
    target_table: String,
    target_column: String,
    match_code: &str,
    update_code: &str,
    delete_code: &str,
) -> (e: SchemaEdge)
    ensures
        e.id == constraint_name,
        e.source == source_table,
        e.source_handle == source_column,
        e.target == target_table,
        e.target_handle == target_column,
        option_view(e.match_type) == match_type_name(match_code@),
        option_view(e.update_rule) == rule_name(update_code@),
        option_view(e.delete_rule) == rule_name(delete_code@),
{
    SchemaEdge {
        id: constraint_name,
        source: source_table,
        source_handle: source_column,
        target: target_table,
        target_handle: target_column,
        match_type: fk_match_type(match_code),
        update_rule: fk_rule(update_code),
        delete_rule: fk_rule(delete_code),
    }
}

// ------------------------------------------------------------------
// Catalog rows
// ------------------------------------------------------------------

/// The size figures recorded for relation `oid`: those of the last record
/// for it.
pub open spec fn stats_for(stats: Seq<(u32, TableStats)>, oid: u32) -> Option<TableStats>
    decreases stats.len(),
{
    if stats.len() == 0 {
        None
    } else if stats.last().0 == oid {
        Some(stats.last().1)
    } else {
        stats_for(stats.drop_last(), oid)
    }
}

fn find_stats(stats: &Vec<(u32, TableStats)>, oid: u32) -> (r: Option<TableStats>)
    ensures
        r == stats_for(stats@, oid),
{
    let mut k = stats.len();
    assert(stats@.take(k as int) =~= stats@);
    while k > 0
        invariant
            k <= stats@.len(),
            stats_for(stats@, oid) == stats_for(stats@.take(k as int), oid),
        decreases k,
    {
        assert(stats@.take(k as int).drop_last() =~= stats@.take(k - 1));
        assert(stats@.take(k as int).last() == stats@[k - 1]);
        if stats[k - 1].0 == oid {
            return Some(stats[k - 1].1);
        }
        k = k - 1;
    }
    None
}

/// One relation row of the table listing: oid, name, relkind code and
/// description.
pub struct RelationRow {
    pub oid: u32,
    pub name: String,
    pub relkind: String,
    pub description: Option<String>,
}

/// The table listing of a schema from its relation rows and the size
/// figures found for them: one entry per row, in row order.
pub fn table_infos(schema: &str, rows: Vec<RelationRow>, stats: &Vec<(u32, TableStats)>) -> (r: Vec<TableInfo>)
    ensures
        r@.len() == rows@.len(),
        forall|i: int| 0 <= i < r@.len() ==> {
            &&& (#[trigger] r@[i]).schema@ == schema@
            &&& r@[i].name == rows@[i].name
            &&& r@[i].oid == rows@[i].oid as u64
            &&& r@[i].table_kind == kind_of_relkind(rows@[i].relkind@)
            &&& r@[i].description == rows@[i].description
            &&& r@[i].stats == stats_for(stats@, rows@[i].oid)
        },
{
    let ghost all = rows@;
    let total = rows.len();
    let mut rest = rows;
    let mut out: Vec<TableInfo> = Vec::new();
    let mut i: usize = 0;
    assert(all.skip(0) =~= all);
    while rest.len() > 0
        invariant
            i <= all.len(),
            total == all.len(),
            rest@ == all.skip(i as int),
            out@.len() == i,
            forall|j: int| 0 <= j < i ==> {
                &&& (#[trigger] out@[j]).schema@ == schema@
                &&& out@[j].name == all[j].name
                &&& out@[j].oid == all[j].oid as u64
                &&& out@[j].table_kind == kind_of_relkind(all[j].relkind@)
                &&& out@[j].description == all[j].description
                &&& out@[j].stats == stats_for(stats@, all[j].oid)
            },
        decreases rest@.len(),
    {
        let row = rest.remove(0);
        assert(row == all[i as int]);
        let kind = table_kind_from_relkind(row.relkind.as_str());
        let st = find_stats(stats, row.oid);
        out.push(TableInfo {
            schema: String::from_str(schema),
            name: row.name,
            oid: row.oid as u64,
            table_kind: kind,
            description: row.description,
            stats: st,
        });
        assert(rest@ =~= all.skip(i + 1));
        i = i + 1;
    }
    out
}

/// The server version from the first cell of `SELECT version()`: its text,
/// or the failure error when there is no text cell.
pub fn server_version_from_cell(cell: Option<CellValue>) -> (r: Result<String, DatabaseError>)
    ensures
        match cell {
            Some(CellValue::Text(v)) => r == Ok::<String, DatabaseError>(v),
            _ => r matches Err(e) && e.message@ == "Failed to query version"@ && e == plain_error(e.message),
        },
{
    match cell {
        Some(CellValue::Text(v)) => Ok(v),
        _ => Err(DatabaseError::new(String::from_str("Failed to query version"))),
    }
}

/// The text bytes of an EXPLAIN result read as raw bytes: binary `jsonb`
/// carries a leading version byte 1, which is dropped.
pub fn explain_text_bytes(raw: &Vec<u8>, is_jsonb: bool) -> (r: Vec<u8>)
    ensures
        r@ == if raw@.len() > 0 && raw@[0] == 1 && is_jsonb {
            raw@.skip(1)
        } else {
            raw@
        },
{
    let n = raw.len();
    let start: usize = if n > 0 && raw[0] == 1 && is_jsonb { 1 } else { 0 };
    let mut out: Vec<u8> = Vec::new();
    let mut i = start;
    while i < n
        invariant
            start <= i <= n == raw@.len(),
            out@ == raw@.subrange(start as int, i as int),
        decreases n - i,
    {
        out.push(raw[i]);
        assert(raw@.subrange(start as int, i + 1) =~= raw@.subrange(start as int, i as int).push(raw@[i as int]));
        i = i + 1;
    }
    assert(raw@.subrange(start as int, n as int) =~= raw@.skip(start as int));
    assert(raw@.skip(0) =~= raw@);
    out
}

/// How a column value is read, by the column's type.
#[derive(Debug, Clone, Copy, PartialEq, Eq, Structural)]
pub enum PgValueKind {
    Bool,
    Int2,
    Int4,
    Int8,
    Float4,
    Float8,
    Text,
    Json,
    Timestamp,
    Date,
    Uuid,
    Numeric,
    /// bytea: `\x` and hexadecimal.
    Bytea,
    /// oid: a number.
    Oid,
    /// xml: its text.
    Xml,
    /// inet and cidr: the address.
    Inet,
    /// macaddr and macaddr8: the address.
    MacAddr,
    /// money: the amount.
    Money,
    /// bit and varbit: the bits.
    Bits,
    /// interval: the interval as PostgreSQL writes it.
    Interval,
    /// hstore (an extension type, known by name): a JSON object.
    Hstore,
    /// An enum type: its label.
    EnumLabel,
    /// Any other type: its text form if it has one.
    Other,
}

/// The reading for a type, from its OID (the built-in types' fixed OIDs),
/// its name (for an extension type) and whether it is an enum type.
pub open spec fn kind_for_type(oid: u32, is_enum: bool, pg_type_name: Seq<char>) -> PgValueKind {
    if oid == 16 {
        PgValueKind::Bool
    } else if oid == 21 {
        PgValueKind::Int2
    } else if oid == 23 {
        PgValueKind::Int4
    } else if oid == 20 {
        PgValueKind::Int8
    } else if oid == 700 {
        PgValueKind::Float4
    } else if oid == 701 {
        PgValueKind::Float8
    } else if oid == 1043 || oid == 25 || oid == 1042 || oid == 19 {
        PgValueKind::Text
    } else if oid == 114 || oid == 3802 {
        PgValueKind::Json
    } else if oid == 1114 || oid == 1184 {
        PgValueKind::Timestamp
    } else if oid == 1082 {
        PgValueKind::Date
    } else if oid == 2950 {
        PgValueKind::Uuid
    } else if oid == 1700 {
        PgValueKind::Numeric
    } else if oid == 17 {
        PgValueKind::Bytea
    } else if oid == 26 {
        PgValueKind::Oid
    } else if oid == 142 {
        PgValueKind::Xml
    } else if oid == 869 || oid == 650 {
        PgValueKind::Inet
    } else if oid == 829 || oid == 774 {
        PgValueKind::MacAddr
    } else if oid == 790 {
        PgValueKind::Money
    } else if oid == 1560 || oid == 1562 {
        PgValueKind::Bits
    } else if oid == 1186 {
        PgValueKind::Interval
    } else if pg_type_name == "hstore"@ {
        PgValueKind::Hstore
    } else if is_enum {
        PgValueKind::EnumLabel
    } else {
        PgValueKind::Other
    }
}

pub fn value_kind_for_type(oid: u32, is_enum: bool, pg_type_name: &str) -> (k: PgValueKind)
    ensures
        k == kind_for_type(oid, is_enum, pg_type_name@),
{
    if oid == 16 {
        PgValueKind::Bool
    } else if oid == 21 {
        PgValueKind::Int2
    } else if oid == 23 {
        PgValueKind::Int4
    } else if oid == 20 {
        PgValueKind::Int8
    } else if oid == 700 {
        PgValueKind::Float4
    } else if oid == 701 {
        PgValueKind::Float8
    } else if oid == 1043 || oid == 25 || oid == 1042 || oid == 19 {
        PgValueKind::Text
    } else if oid == 114 || oid == 3802 {
        PgValueKind::Json
    } else if oid == 1114 || oid == 1184 {
        PgValueKind::Timestamp
    } else if oid == 1082 {
        PgValueKind::Date
    } else if oid == 2950 {
        PgValueKind::Uuid
    } else if oid == 1700 {
        PgValueKind::Numeric
    } else if oid == 17 {
        PgValueKind::Bytea
    } else if oid == 26 {
        PgValueKind::Oid
    } else if oid == 142 {
        PgValueKind::Xml
    } else if oid == 869 || oid == 650 {
        PgValueKind::Inet
    } else if oid == 829 || oid == 774 {
        PgValueKind::MacAddr
    } else if oid == 790 {
        PgValueKind::Money
    } else if oid == 1560 || oid == 1562 {
        PgValueKind::Bits
    } else if oid == 1186 {
        PgValueKind::Interval
    } else if str_is(pg_type_name, "hstore") {
        PgValueKind::Hstore
    } else if is_enum {
        PgValueKind::EnumLabel
    } else {
        PgValueKind::Other
    }
}

// ------------------------------------------------------------------
// Fetching a batch of rows
// ------------------------------------------------------------------

/// What the row stream yielded next.
pub enum RowEvent<T> {
    Row(T),
    Failed(String),
    End,
}

/// Collects up to `batch_size` rows from a row stream: it stops at the
/// batch size, at the end of the stream or at the first error.
pub struct BatchCollector<T> {
    rows: Vec<T>,
    batch_size: usize,
    ended: bool,
    error: Option<String>,
}

impl<T> BatchCollector<T> {
    pub closed spec fn rows_so_far(&self) -> Seq<T> {
        self.rows@
    }

    pub closed spec fn limit(&self) -> nat {
        self.batch_size as nat
    }

    pub closed spec fn stopped(&self) -> bool {
        self.ended || self.error is Some || self.rows@.len() >= self.batch_size
    }

    pub closed spec fn failure(&self) -> Option<String> {
        self.error
    }

    pub fn new(batch_size: usize) -> (c: Self)
        ensures
            c.rows_so_far() == Seq::<T>::empty(),
            c.limit() == batch_size,
            c.failure() is None,
            c.stopped() == (batch_size == 0),
    {
        BatchCollector { rows: Vec::new(), batch_size, ended: false, error: None }
    }

    /// Whether another row should be requested.
    pub fn wants_more(&self) -> (b: bool)
        ensures
            b == !self.stopped(),
    {
        !self.ended && self.error.is_none() && self.rows.len() < self.batch_size
    }

    /// Takes what the stream yielded.
    pub fn accept(&mut self, event: RowEvent<T>)
        requires
            !old(self).stopped(),
        ensures
            final(self).limit() == old(self).limit(),
            match event {
                RowEvent::Row(r) => final(self).rows_so_far() == old(self).rows_so_far().push(r)
                    && final(self).failure() is None
                    && final(self).stopped() == (final(self).rows_so_far().len() >= final(self).limit()),
                RowEvent::Failed(m) => final(self).rows_so_far() == old(self).rows_so_far()
                    && final(self).failure() == Some(m) && final(self).stopped(),
                RowEvent::End => final(self).rows_so_far() == old(self).rows_so_far()
                    && final(self).failure() is None && final(self).stopped(),
            },
    {
        match event {
            RowEvent::Row(r) => self.rows.push(r),
            RowEvent::Failed(m) => self.error = Some(m),
            RowEvent::End => self.ended = true,
        }
    }

    /// The batch: the error if one arrived, no batch if no row arrived, the
    /// rows otherwise.
    pub fn finish(self) -> (r: Result<Option<Vec<T>>, String>)
        ensures
            match self.failure() {
                Some(m) => r == Err::<Option<Vec<T>>, String>(m),
                None => if self.rows_so_far().len() == 0 {
                    r == Ok::<Option<Vec<T>>, String>(None)
                } else {
                    r matches Ok(Some(v)) && v@ == self.rows_so_far()
                },
            },
    {
        match self.error {
            Some(m) => Err(m),
            None => if self.rows.len() == 0 {
                Ok(None)
            } else {
                Ok(Some(self.rows))
            },
        }
    }
}

// ------------------------------------------------------------------
// Laws
// ------------------------------------------------------------------

/// Each foreign-key action code of `pg_constraint` is named after its own
/// action: `c` CASCADE, `r` RESTRICT, `n` SET_NULL, `d` SET_DEFAULT, `a`
/// NO_ACTION; any other code has no name.
pub proof fn law_fk_rule_names(code: Seq<char>)
    ensures
        code == "c"@ ==> rule_name(code) == Some("CASCADE"@),
        code == "r"@ ==> rule_name(code) == Some("RESTRICT"@),
        code == "n"@ ==> rule_name(code) == Some("SET_NULL"@),
        code == "d"@ ==> rule_name(code) == Some("SET_DEFAULT"@),
        code == "a"@ ==> rule_name(code) == Some("NO_ACTION"@),
        code != "c"@ && code != "r"@ && code != "n"@ && code != "d"@ && code != "a"@ ==> rule_name(code) is None,
{
    reveal_strlit("c");
    reveal_strlit("r");
    reveal_strlit("n");
    reveal_strlit("d");
    reveal_strlit("a");
    assert("c"@[0] == 'c' && "r"@[0] == 'r' && "n"@[0] == 'n' && "d"@[0] == 'd' && "a"@[0] == 'a');
}

/// Two different action codes never get the same name: RESTRICT and NO
/// ACTION, or any other two actions, are never conflated.
pub proof fn law_fk_rule_injective(a: Seq<char>, b: Seq<char>)
    requires
        rule_name(a) is Some,
        rule_name(a) == rule_name(b),
    ensures
        a == b,
{
    reveal_strlit("c");
    reveal_strlit("r");
    reveal_strlit("n");
    reveal_strlit("d");
    reveal_strlit("a");
    reveal_strlit("CASCADE");
    reveal_strlit("RESTRICT");
    reveal_strlit("SET_NULL");
    reveal_strlit("SET_DEFAULT");
    reveal_strlit("NO_ACTION");
    assert("CASCADE"@ != "RESTRICT"@) by { assert("CASCADE"@[0] != "RESTRICT"@[0]); }
    assert("CASCADE"@ != "SET_NULL"@) by { assert("CASCADE"@[0] != "SET_NULL"@[0]); }
    assert("CASCADE"@ != "SET_DEFAULT"@) by { assert("CASCADE"@[0] != "SET_DEFAULT"@[0]); }
    assert("CASCADE"@ != "NO_ACTION"@) by { assert("CASCADE"@[0] != "NO_ACTION"@[0]); }
    assert("RESTRICT"@ != "SET_NULL"@) by { assert("RESTRICT"@[0] != "SET_NULL"@[0]); }
    assert("RESTRICT"@ != "SET_DEFAULT"@) by { assert("RESTRICT"@[0] != "SET_DEFAULT"@[0]); }
    assert("RESTRICT"@ != "NO_ACTION"@) by { assert("RESTRICT"@[0] != "NO_ACTION"@[0]); }
    assert("SET_NULL"@ != "SET_DEFAULT"@) by { assert("SET_NULL"@[4] != "SET_DEFAULT"@[4]); }
    assert("SET_NULL"@ != "NO_ACTION"@) by { assert("SET_NULL"@[0] != "NO_ACTION"@[0]); }
    assert("SET_DEFAULT"@ != "NO_ACTION"@) by { assert("SET_DEFAULT"@[0] != "NO_ACTION"@[0]); }
}

/// The built-in types are read by their own PostgreSQL OIDs, each integer
/// type with the reading of its own width: a reading of a fixed-OID kind is
/// chosen exactly for that type's OIDs (16 bool, 21 int2, 23 int4, 20 int8,
/// 700 float4, 701 float8, 25/1043/1042/19 text, 114/3802 json, 1114/1184
/// timestamp, 1082 date, 2950 uuid, 1700 numeric, 17 bytea, 26 oid, 142 xml,
/// 869/650 inet and cidr, 829/774 macaddr, 790 money, 1560/1562 bit, 1186
/// interval).
pub proof fn law_kind_by_builtin_oid(oid: u32, is_enum: bool, pg_type_name: Seq<char>)
    ensures
        (kind_for_type(oid, is_enum, pg_type_name) == PgValueKind::Bool) <==> oid == 16,
        (kind_for_type(oid, is_enum, pg_type_name) == PgValueKind::Int2) <==> oid == 21,
        (kind_for_type(oid, is_enum, pg_type_name) == PgValueKind::Int4) <==> oid == 23,
        (kind_for_type(oid, is_enum, pg_type_name) == PgValueKind::Int8) <==> oid == 20,
        (kind_for_type(oid, is_enum, pg_type_name) == PgValueKind::Float4) <==> oid == 700,
        (kind_for_type(oid, is_enum, pg_type_name) == PgValueKind::Float8) <==> oid == 701,
        (kind_for_type(oid, is_enum, pg_type_name) == PgValueKind::Text) <==> (oid == 25 || oid == 1043
            || oid == 1042 || oid == 19),
        (kind_for_type(oid, is_enum, pg_type_name) == PgValueKind::Json) <==> (oid == 114 || oid == 3802),
        (kind_for_type(oid, is_enum, pg_type_name) == PgValueKind::Timestamp) <==> (oid == 1114 || oid == 1184),
        (kind_for_type(oid, is_enum, pg_type_name) == PgValueKind::Date) <==> oid == 1082,
        (kind_for_type(oid, is_enum, pg_type_name) == PgValueKind::Uuid) <==> oid == 2950,
        (kind_for_type(oid, is_enum, pg_type_name) == PgValueKind::Numeric) <==> oid == 1700,
        (kind_for_type(oid, is_enum, pg_type_name) == PgValueKind::Bytea) <==> oid == 17,
        (kind_for_type(oid, is_enum, pg_type_name) == PgValueKind::Oid) <==> oid == 26,
        (kind_for_type(oid, is_enum, pg_type_name) == PgValueKind::Xml) <==> oid == 142,
        (kind_for_type(oid, is_enum, pg_type_name) == PgValueKind::Inet) <==> (oid == 869 || oid == 650),
        (kind_for_type(oid, is_enum, pg_type_name) == PgValueKind::MacAddr) <==> (oid == 829 || oid == 774),
        (kind_for_type(oid, is_enum, pg_type_name) == PgValueKind::Money) <==> oid == 790,
        (kind_for_type(oid, is_enum, pg_type_name) == PgValueKind::Bits) <==> (oid == 1560 || oid == 1562),
        (kind_for_type(oid, is_enum, pg_type_name) == PgValueKind::Interval) <==> oid == 1186,
{
}

/// The EXPLAIN statement asks for JSON output first, then names each
/// requested option exactly when it is requested, each once.
pub proof fn law_explain_names_requested_options(sql: Seq<char>, o: ExplainOptions)
    ensures
        explain_statement(sql, o) == "EXPLAIN ("@ + join_with(explain_option_list(o), ", "@) + ") "@ + sql,
        explain_option_list(o)[0] == "FORMAT JSON"@,
        explain_option_list(o).contains("ANALYZE"@) <==> o.analyze,
        explain_option_list(o).contains("VERBOSE"@) <==> o.verbose,
        explain_option_list(o).contains("COSTS"@) <==> o.costs,
        explain_option_list(o).contains("BUFFERS"@) <==> o.buffers,
        explain_option_list(o).contains("TIMING"@) <==> o.timing,
        explain_option_list(o).contains("SETTINGS"@) <==> o.settings,
        explain_option_list(o).no_duplicates(),
{
    reveal_strlit("FORMAT JSON");
    reveal_strlit("ANALYZE");
    reveal_strlit("VERBOSE");
    reveal_strlit("COSTS");
    reveal_strlit("BUFFERS");
    reveal_strlit("TIMING");
    reveal_strlit("SETTINGS");
    let fj = "FORMAT JSON"@;
    let an = "ANALYZE"@;
    let ve = "VERBOSE"@;
    let co = "COSTS"@;
    let bu = "BUFFERS"@;
    let ti = "TIMING"@;
    let se = "SETTINGS"@;
    assert(fj[0] == 'F' && an[0] == 'A' && ve[0] == 'V' && co[0] == 'C' && bu[0] == 'B' && ti[0] == 'T' && se[0]
        == 'S');
    let l0 = seq![fj];
    assert(l0.no_duplicates());
    assert forall|y: Seq<char>| l0.contains(y) <==> y == fj by {
        if y == fj {
            assert(l0[0] == y);
        }
    }
    let l1 = if o.analyze { l0.push(an) } else { l0 };
    lemma_push_if(l0, o.analyze, an, l1);
    let l2 = if o.verbose { l1.push(ve) } else { l1 };
    lemma_push_if(l1, o.verbose, ve, l2);
    let l3 = if o.costs { l2.push(co) } else { l2 };
    lemma_push_if(l2, o.costs, co, l3);
    let l4 = if o.buffers { l3.push(bu) } else { l3 };
    lemma_push_if(l3, o.buffers, bu, l4);
    let l5 = if o.timing { l4.push(ti) } else { l4 };
    lemma_push_if(l4, o.timing, ti, l5);
    let l6 = if o.settings { l5.push(se) } else { l5 };
    lemma_push_if(l5, o.settings, se, l6);
    assert(explain_option_list(o) == l6);
    assert(l6[0] == fj);
    assert(l6.contains(an) <==> o.analyze);
    assert(l6.contains(ve) <==> o.verbose);
    assert(l6.contains(co) <==> o.costs);
    assert(l6.contains(bu) <==> o.buffers);
    assert(l6.contains(ti) <==> o.timing);
    assert(l6.contains(se) <==> o.settings);
}

/// Pushing `x` onto a list of distinct items that lacks it, or not pushing,
/// keeps the items distinct and adds exactly `x` (when pushed) to what the
/// list holds.
proof fn lemma_push_if(l: Seq<Seq<char>>, on: bool, x: Seq<char>, m: Seq<Seq<char>>)
    requires
        l.no_duplicates(),
        !l.contains(x),
        m == (if on { l.push(x) } else { l }),
    ensures
        m.no_duplicates(),
        forall|y: Seq<char>| #[trigger] m.contains(y) <==> (l.contains(y) || (on && y == x)),
        l.len() > 0 ==> m[0] == l[0],
{
    if on {
        assert forall|y: Seq<char>| m.contains(y) <==> (l.contains(y) || y == x) by {
            if m.contains(y) {
                let k = choose|k: int| 0 <= k < m.len() && m[k] == y;
                if k < l.len() {
                    assert(l[k] == y);
                }
            }
            if l.contains(y) {
                let k = choose|k: int| 0 <= k < l.len() && l[k] == y;
                assert(m[k] == y);
            }
            if y == x {
                assert(m[l.len() as int] == y);
            }
        }
        assert forall|a: int, b: int| 0 <= a < m.len() && 0 <= b < m.len() && a != b implies m[a] != m[b] by {
            if a < l.len() && b < l.len() {
                assert(m[a] == l[a] && m[b] == l[b]);
            } else if a < l.len() {
                assert(m[a] == l[a]);
                assert(l.contains(m[a]));
            } else if b < l.len() {
                assert(m[b] == l[b]);
                assert(l.contains(m[b]));
            }
        }
    }
}

} // verus!
