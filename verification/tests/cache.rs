use open_db_viewer::api::{SchemaGraph, SchemaInfo, TableSchema};
use open_db_viewer::cache::{CatalogCache, ObjectLookupCache};
use open_db_viewer::error::DatabaseError;
use std::cell::Cell;

#[test]
fn test_cache_loading_and_invalidation() {
    let mut cache: ObjectLookupCache<String> = ObjectLookupCache::new();
    let count = Cell::new(0usize);

    let val = cache
        .get_or_load("key1", || {
            count.set(count.get() + 1);
            Ok("value1".to_string())
        })
        .unwrap()
        .clone();
    assert_eq!(val, "value1".to_string());
    assert_eq!(count.get(), 1);

    // Fetch again, should not run loader
    let val2 = cache
        .get_or_load("key1", || {
            count.set(count.get() + 1);
            Ok("value_other".to_string())
        })
        .unwrap()
        .clone();
    assert_eq!(val2, "value1".to_string());
    assert_eq!(count.get(), 1);

    // Invalidate and fetch again, should run loader
    cache.invalidate("key1");
    let val3 = cache
        .get_or_load("key1", || {
            count.set(count.get() + 1);
            Ok("value3".to_string())
        })
        .unwrap()
        .clone();
    assert_eq!(val3, "value3".to_string());
    assert_eq!(count.get(), 2);
}

#[test]
fn failed_load_caches_nothing() {
    let mut cache: ObjectLookupCache<u32> = ObjectLookupCache::new();
    let r = cache.get_or_load("k", || Err(DatabaseError::new("boom".to_string())));
    assert_eq!(r.unwrap_err().message, "boom");
    assert!(cache.lookup("k").is_none());
    assert_eq!(cache.len(), 0);
    cache.store("k", 4);
    assert_eq!(cache.lookup("k"), Some(&4));
    cache.clear();
    assert_eq!(cache.len(), 0);
}

fn schema(cols: usize) -> TableSchema {
    TableSchema { columns: Vec::with_capacity(cols) }
}

#[test]
fn catalog_refresh_rules() {
    let mut c = CatalogCache::new();
    c.store_schemas(vec![SchemaInfo { name: "public".to_string() }]);
    c.store_tables("public", vec![]);
    c.store_columns("public", "a", schema(1));
    c.store_columns("public", "b", schema(2));
    c.store_columns("other", "a", schema(3));
    c.store_graph("public", SchemaGraph { nodes: vec![], edges: vec![] });
    assert!(c.columns("public", "a").is_some());

    c.refresh_table("public", "a");
    assert!(c.columns("public", "a").is_none());
    assert!(c.columns("public", "b").is_some());
    assert!(c.graph("public").is_none());
    assert!(c.tables("public").is_some());

    c.refresh_schema("public");
    assert!(c.columns("public", "b").is_none());
    assert!(c.columns("other", "a").is_some());
    assert!(c.tables("public").is_none());
    assert!(c.schemas().is_some());

    c.refresh_all();
    assert!(c.schemas().is_none());
    assert!(c.columns("other", "a").is_none());
}
