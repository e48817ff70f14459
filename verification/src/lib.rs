//! Verified core of a file-indexing search engine.
//!
//! The crate models the pipeline of a desktop file-search tool: a filtered
//! directory walker decides which entries enter the index, a batched writer
//! turns entries into upsert statements and applies them to the file table,
//! a coordinator arbitrates the single storage handle between the background
//! writer and foreground queries, and a query engine answers a search with a
//! full-text attempt that falls back to a substring scan.  Everything that
//! decides or computes lives here with a contract; the surrounding process
//! (file-system enumeration, the SQLite store, the request loop) consumes
//! these functions from outside.

pub mod batch;
pub mod config;
pub mod coordinator;
pub mod filters;
pub mod record;
pub mod schema;
pub mod search;
pub mod table;
pub mod text;
pub mod walker;
