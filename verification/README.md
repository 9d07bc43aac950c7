# open_db_viewer

The core of a desktop database viewer for PostgreSQL and Redis, written in
Verus. The functions under `src/` carry contracts that the verifier proves;
the exceptions are five small trusted wrappers around std and serde_json
(`push_char`, `to_lowercase`, `to_uppercase`, `serde_pretty_strings`,
`serde_pretty_pairs`), whose contracts are taken on trust and say in their
doc comments what they claim of the outside call.

Layout:

- `src/text.rs` — character-level string helpers with their specifications
  (trimming, splitting, joining, replacing, decimal rendering).
- `src/api.rs`, `src/error.rs` — the data model shared by the drivers and the
  error categories.
- `src/dialect.rs` — PostgreSQL quoting, literal escaping and paging of row
  queries, with injectivity laws.
- `src/postgres.rs` — the PostgreSQL driver's logic: connection strings,
  search paths, catalog codes, DDL rendering, schema-graph grouping, batching
  of streamed rows.
- `src/pg_values.rs` — the text of values read from their binary wire form:
  bytea, MAC and network addresses, bit strings, money, intervals and hstore.
- `src/query_run.rs` — the events a running query sends to the interface:
  one per batch, then exactly one final error or row count.
- `src/redis.rs` — Redis commands, key rendering and `INFO` parsing.
- `src/keyed.rs`, `src/cache.rs`, `src/manager.rs` — keyed collections, the
  metadata cache and the registry of open connections, with read-after-write
  laws. The registry of open connections, the password store and the server
  statistics are held in `KeyedList`, a verified list of entries with unique
  keys, in place of a concurrent `DashMap` or a std `HashMap` with `String`
  keys: `DashMap` changes its contents behind a shared reference and hands
  out lock guards, and a `HashMap` keyed by `String` carries no usable
  specification of its contents. The application puts the registry behind a
  lock instead. The metadata caches use vstd's `StringHashMap`.
- `src/keychain.rs`, `src/profiles.rs` — saved passwords, connection
  profiles, snippets, history and result export.
- `app/` — the I/O around the library: database clients, files, the keychain
  and the command layer.
- `tests/` — tests of the library on concrete values.
