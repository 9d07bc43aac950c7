//! Connection, dialect and metadata logic of a desktop database client
//! for PostgreSQL and Redis, with its contracts proved by Verus.

pub mod text;
pub mod api;
pub mod dialect;
pub mod error;
pub mod postgres;
pub mod cache;
pub mod keyed;
pub mod manager;
pub mod redis;
pub mod keychain;
pub mod profiles;
pub mod query_run;
pub mod pg_values;
