//! Lazily filled metadata caches: a value is loaded on first use and served
//! from memory until its entry is invalidated.

use vstd::prelude::*;
use vstd::hash_map::StringHashMap;
use crate::api::{SchemaGraph, SchemaInfo, TableInfo, TableSchema};
use crate::error::DatabaseError;
use crate::keyed::KeyedList;

verus! {

/// What a cache read gives for `key`: the loaded value, or nothing yet.
pub open spec fn cache_lookup<V>(m: Map<Seq<char>, V>, key: Seq<char>) -> Option<V> {
    if m.contains_key(key) {
        Some(m[key])
    } else {
        None
    }
}

/// The cached values after `value` is stored for `key`.
pub open spec fn with_cached<V>(m: Map<Seq<char>, V>, key: Seq<char>, value: V) -> Map<Seq<char>, V> {
    m.insert(key, value)
}

/// The cached values after the one of `key` is invalidated.
pub open spec fn without_cached<V>(m: Map<Seq<char>, V>, key: Seq<char>) -> Map<Seq<char>, V> {
    m.remove(key)
}

/// A cache from text keys to loaded values.
#[verifier::reject_recursive_types(V)]
pub struct ObjectLookupCache<V> {
    entries: StringHashMap<V>,
}

impl<V> View for ObjectLookupCache<V> {
    type V = Map<Seq<char>, V>;

    closed spec fn view(&self) -> Map<Seq<char>, V> {
        self.entries@
    }
}

impl<V> ObjectLookupCache<V> {
    /// An empty cache.
    pub fn new() -> (c: Self)
        ensures
            c@ == Map::<Seq<char>, V>::empty(),
    {
        ObjectLookupCache { entries: StringHashMap::new() }
    }

    /// The number of cached entries.
    pub fn len(&self) -> (n: usize)
        ensures
            n == self@.len(),
    {
        self.entries.len()
    }

    /// The cached value of `key`, if it has been loaded.
    pub fn lookup(&self, key: &str) -> (r: Option<&V>)
        ensures
            match r {
                Some(v) => cache_lookup(self@, key@) == Some(*v),
                None => cache_lookup(self@, key@) is None,
            },
    {
        self.entries.get(key)
    }

    /// Records a loaded value for `key`, replacing any earlier one.
    pub fn store(&mut self, key: &str, value: V)
        ensures
            final(self)@ == with_cached(old(self)@, key@, value),
    {
        self.entries.insert(String::from_str(key), value);
    }

    /// The cached value of `key`; on a miss, the loader's value, which is
    /// then cached. A failed load caches nothing and returns the loader's
    /// error.
    pub fn get_or_load<F: FnOnce() -> Result<V, DatabaseError>>(&mut self, key: &str, loader: F) -> (r: Result<&V, DatabaseError>)
        requires
            !old(self)@.contains_key(key@) ==> loader.requires(()),
        ensures
            old(self)@.contains_key(key@) ==> {
                &&& final(self)@ == old(self)@
                &&& (r matches Ok(v) && *v == old(self)@[key@])
            },
            !old(self)@.contains_key(key@) ==> exists|res: Result<V, DatabaseError>| {
                &&& #[trigger] loader.ensures((), res)
                &&& match res {
                    Ok(v) => final(self)@ == old(self)@.insert(key@, v) && (r matches Ok(w) && *w == v),
                    Err(e) => final(self)@ == old(self)@ && r == Err::<&V, DatabaseError>(e),
                }
            },
    {
        if self.entries.contains_key(key) {
            match self.entries.get(key) {
                Some(v) => Ok(v),
                None => {
                    proof {
                        assert(false);
                    }
                    Err(DatabaseError::new(String::new()))
                },
            }
        } else {
            let res = loader();
            match res {
                Ok(v) => {
                    let ghost stored = v;
                    self.entries.insert(String::from_str(key), v);
                    match self.entries.get(key) {
                        Some(w) => {
                            assert(loader.ensures((), Ok::<V, DatabaseError>(stored)));
                            Ok(w)
                        },
                        None => {
                            proof {
                                assert(self@.contains_key(key@));
                            }
                            Err(DatabaseError::new(String::new()))
                        },
                    }
                },
                Err(e) => {
                    let ghost err = e;
                    assert(loader.ensures((), Err::<V, DatabaseError>(err)));
                    Err(e)
                },
            }
        }
    }

    /// Drops the cached value of `key`, if any.
    pub fn invalidate(&mut self, key: &str)
        ensures
            final(self)@ == without_cached(old(self)@, key@),
    {
        self.entries.remove(key);
    }

    /// Drops every cached value.
    pub fn clear(&mut self)
        ensures
            final(self)@ == Map::<Seq<char>, V>::empty(),
    {
        self.entries.clear();
    }
}

// ------------------------------------------------------------------
// The driver's catalog caches
// ------------------------------------------------------------------

/// The catalog caches of one connection: the schema list, the tables of
/// each schema, the columns of each table and the diagram of each schema.
pub struct CatalogCache {
    schemas: Option<Vec<SchemaInfo>>,
    tables: ObjectLookupCache<Vec<TableInfo>>,
    columns: KeyedList<KeyedList<TableSchema>>,
    graphs: ObjectLookupCache<SchemaGraph>,
}

impl CatalogCache {
    pub closed spec fn cached_schemas(&self) -> Option<Vec<SchemaInfo>> {
        self.schemas
    }

    pub closed spec fn cached_tables(&self) -> Map<Seq<char>, Vec<TableInfo>> {
        self.tables@
    }

    pub closed spec fn cached_graphs(&self) -> Map<Seq<char>, SchemaGraph> {
        self.graphs@
    }

    /// The cached columns of `table` in `schema`, if loaded.
    pub closed spec fn cached_columns(&self, schema: Seq<char>, table: Seq<char>) -> Option<TableSchema> {
        if self.columns@.contains_key(schema) && self.columns@[schema]@.contains_key(table) {
            Some(self.columns@[schema]@[table])
        } else {
            None
        }
    }

    /// Nothing cached.
    pub fn new() -> (c: Self)
        ensures
            c.cached_schemas() is None,
            c.cached_tables() == Map::<Seq<char>, Vec<TableInfo>>::empty(),
            c.cached_graphs() == Map::<Seq<char>, SchemaGraph>::empty(),
            forall|s: Seq<char>, t: Seq<char>| c.cached_columns(s, t) is None,
    {
        CatalogCache {
            schemas: None,
            tables: ObjectLookupCache::new(),
            columns: KeyedList::new(),
            graphs: ObjectLookupCache::new(),
        }
    }

    pub fn schemas(&self) -> (r: Option<&Vec<SchemaInfo>>)
        ensures
            match r {
                Some(v) => self.cached_schemas() == Some(*v),
                None => self.cached_schemas() is None,
            },
    {
        match &self.schemas {
            Some(v) => Some(v),
            None => None,
        }
    }

    pub fn store_schemas(&mut self, schemas: Vec<SchemaInfo>)
        ensures
            final(self).cached_schemas() == Some(schemas),
            final(self).cached_tables() == old(self).cached_tables(),
            final(self).cached_graphs() == old(self).cached_graphs(),
            forall|s: Seq<char>, t: Seq<char>| final(self).cached_columns(s, t) == old(self).cached_columns(s, t),
    {
        self.schemas = Some(schemas);
    }

    pub fn tables(&self, schema: &str) -> (r: Option<&Vec<TableInfo>>)
        ensures
            match r {
                Some(v) => self.cached_tables().contains_key(schema@) && *v == self.cached_tables()[schema@],
                None => !self.cached_tables().contains_key(schema@),
            },
    {
        self.tables.lookup(schema)
    }

    pub fn store_tables(&mut self, schema: &str, tables: Vec<TableInfo>)
        ensures
            final(self).cached_schemas() == old(self).cached_schemas(),
            final(self).cached_tables() == old(self).cached_tables().insert(schema@, tables),
            final(self).cached_graphs() == old(self).cached_graphs(),
            forall|s: Seq<char>, t: Seq<char>| final(self).cached_columns(s, t) == old(self).cached_columns(s, t),
    {
        self.tables.store(schema, tables);
    }

    pub fn graph(&self, schema: &str) -> (r: Option<&SchemaGraph>)
        ensures
            match r {
                Some(v) => self.cached_graphs().contains_key(schema@) && *v == self.cached_graphs()[schema@],
                None => !self.cached_graphs().contains_key(schema@),
            },
    {
        self.graphs.lookup(schema)
    }

    pub fn store_graph(&mut self, schema: &str, graph: SchemaGraph)
        ensures
            final(self).cached_schemas() == old(self).cached_schemas(),
            final(self).cached_tables() == old(self).cached_tables(),
            final(self).cached_graphs() == old(self).cached_graphs().insert(schema@, graph),
            forall|s: Seq<char>, t: Seq<char>| final(self).cached_columns(s, t) == old(self).cached_columns(s, t),
    {
        self.graphs.store(schema, graph);
    }

    pub fn columns(&self, schema: &str, table: &str) -> (r: Option<&TableSchema>)
        ensures
            match r {
                Some(v) => self.cached_columns(schema@, table@) == Some(*v),
                None => self.cached_columns(schema@, table@) is None,
            },
    {
        match self.columns.get(schema) {
            Some(inner) => inner.get(table),
            None => None,
        }
    }

    pub fn store_columns(&mut self, schema: &str, table: &str, columns: TableSchema)
        ensures
            final(self).cached_schemas() == old(self).cached_schemas(),
            final(self).cached_tables() == old(self).cached_tables(),
            final(self).cached_graphs() == old(self).cached_graphs(),
            forall|s: Seq<char>, t: Seq<char>| #[trigger] final(self).cached_columns(s, t) == if s == schema@ && t == table@ {
                Some(columns)
            } else {
                old(self).cached_columns(s, t)
            },
    {
        let ghost old_outer = self.columns@;
        let mut inner = match self.columns.take(schema) {
            Some(i) => i,
            None => KeyedList::new(),
        };
        let ghost old_inner = inner@;
        inner.insert(String::from_str(table), columns);
        self.columns.insert(String::from_str(schema), inner);
        assert forall|s: Seq<char>, t: Seq<char>| #[trigger] self.cached_columns(s, t) == if s == schema@ && t == table@ {
            Some(columns)
        } else {
            old(self).cached_columns(s, t)
        } by {
            if s == schema@ {
                if old_outer.contains_key(s) {
                    assert(old_inner == old_outer[s]@);
                }
            }
        }
    }

    /// Forgets everything cached about one schema: its tables, its diagram
    /// and the columns of each of its tables.
    pub fn refresh_schema(&mut self, schema: &str)
        ensures
            final(self).cached_schemas() == old(self).cached_schemas(),
            final(self).cached_tables() == old(self).cached_tables().remove(schema@),
            final(self).cached_graphs() == old(self).cached_graphs().remove(schema@),
            forall|s: Seq<char>, t: Seq<char>| #[trigger] final(self).cached_columns(s, t) == if s == schema@ {
                None
            } else {
                old(self).cached_columns(s, t)
            },
    {
        self.tables.invalidate(schema);
        self.graphs.invalidate(schema);
        self.columns.remove(schema);
    }

    /// Forgets the columns of one table and the diagram of its schema.
    pub fn refresh_table(&mut self, schema: &str, table: &str)
        ensures
            final(self).cached_schemas() == old(self).cached_schemas(),
            final(self).cached_tables() == old(self).cached_tables(),
            final(self).cached_graphs() == old(self).cached_graphs().remove(schema@),
            forall|s: Seq<char>, t: Seq<char>| #[trigger] final(self).cached_columns(s, t) == if s == schema@ && t == table@ {
                None
            } else {
                old(self).cached_columns(s, t)
            },
    {
        let ghost old_outer = self.columns@;
        match self.columns.take(schema) {
            Some(mut inner) => {
                let ghost old_inner = inner@;
                inner.remove(table);
                self.columns.insert(String::from_str(schema), inner);
                assert forall|s: Seq<char>, t: Seq<char>| #[trigger] self.cached_columns(s, t) == if s == schema@ && t == table@ {
                    None
                } else {
                    old(self).cached_columns(s, t)
                } by {
                    if s == schema@ {
                        assert(old_inner == old_outer[s]@);
                    }
                }
            },
            None => {
                assert forall|s: Seq<char>, t: Seq<char>| #[trigger] self.cached_columns(s, t) == if s == schema@ && t == table@ {
                    None
                } else {
                    old(self).cached_columns(s, t)
                } by {
                }
            },
        }
        self.graphs.invalidate(schema);
    }

    /// Forgets everything.
    pub fn refresh_all(&mut self)
        ensures
            final(self).cached_schemas() is None,
            final(self).cached_tables() == Map::<Seq<char>, Vec<TableInfo>>::empty(),
            final(self).cached_graphs() == Map::<Seq<char>, SchemaGraph>::empty(),
            forall|s: Seq<char>, t: Seq<char>| final(self).cached_columns(s, t) is None,
    {
        self.schemas = None;
        self.tables.clear();
        self.graphs.clear();
        self.columns.clear();
    }
}

/// What a refresh request invalidates.
pub enum RefreshScope {
    Table(String, String),
    Schema(String),
    Nothing,
}

/// The scope of a refresh request: a table when both schema and table are
/// named, a schema when only the schema is, nothing otherwise (a table
/// without its schema names nothing).
pub fn refresh_scope(schema: Option<String>, table: Option<String>) -> (r: RefreshScope)
    ensures
        match (schema, table) {
            (Some(s), Some(t)) => r == RefreshScope::Table(s, t),
            (Some(s), None) => r == RefreshScope::Schema(s),
            _ => r == RefreshScope::Nothing,
        },
{
    match table {
        Some(t) => match schema {
            Some(s) => RefreshScope::Table(s, t),
            None => RefreshScope::Nothing,
        },
        None => match schema {
            Some(s) => RefreshScope::Schema(s),
            None => RefreshScope::Nothing,
        },
    }
}

// ------------------------------------------------------------------
// Laws
// ------------------------------------------------------------------

/// A read after a store gives back the stored value; other keys read as
/// before.
pub proof fn law_lookup_after_store<V>(before: Map<Seq<char>, V>, key: Seq<char>, value: V, other: Seq<char>)
    ensures
        cache_lookup(with_cached(before, key, value), key) == Some(value),
        other != key ==> cache_lookup(with_cached(before, key, value), other) == cache_lookup(before, other),
{
}

/// After invalidation a read of the key finds nothing, so the next
/// `get_or_load` loads it anew; other keys read as before.
pub proof fn law_invalidate_forces_reload<V>(before: Map<Seq<char>, V>, key: Seq<char>, other: Seq<char>)
    ensures
        cache_lookup(without_cached(before, key), key) is None,
        other != key ==> cache_lookup(without_cached(before, key), other) == cache_lookup(before, other),
{
}

} // verus!
