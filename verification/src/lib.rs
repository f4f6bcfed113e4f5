//! A verified core of a graph-to-relational query compiler.
//!
//! Relational tables are described by runtime descriptors ([`table::TableInfo`]);
//! client requests are trees of selected fields with optional `filter`, `order`,
//! `limit`, `offset` and `primaryKey` arguments ([`request::SelectionField`]).
//! The library compiles such a request into one relational query per selection
//! level ([`query::Query`]), executes it against an in-memory store
//! ([`database::Connection`]), decodes the rows, resolves nested associations in
//! batches, and assembles the nested response. Insert, batch-insert and delete
//! mutations run atomically on the same store.

pub mod convert;
pub mod database;
pub mod decode;
pub mod error;
pub mod filter;
pub mod has_many;
pub mod input;
pub mod laws;
pub mod loader;
pub mod mutations;
pub mod order;
pub mod output;
pub mod outside;
pub mod primary_keys;
pub mod query;
pub mod request;
pub mod run;
pub mod scalar;
pub mod table;
