//! The schema manager.
//!
//! Run once at startup, it brings the store to a known shape: the file
//! table and its full-text mirror exist, with the storage-engine tuning
//! applied.  With `reset` the two tables are dropped first.  The statements
//! the store executes are fixed here; `initialize` states what they do to
//! the schema, and `failure_is_fatal` states the error taxonomy: a failed
//! drop is only a warning, a failed creation ends the process, as the index
//! cannot be used without its tables.

use vstd::prelude::*;

verus! {

/// Whether the two tables exist in the store.
pub struct SchemaState {
    pub files_table: bool,
    pub mirror: bool,
}

/// The steps of schema initialization, for classifying a failure.
pub enum SchemaStep {
    /// Dropping an old table during a reset.
    Drop,
    /// Creating the tables and applying the tuning parameters.
    Create,
}

/// Brings the schema to its ready shape.  The outcome does not depend on
/// the state found, so running it again changes nothing: initialization is
/// idempotent.
pub fn initialize(s: &mut SchemaState, reset: bool)
    ensures
        final(s).files_table,
        final(s).mirror,
{
    s.files_table = true;
    s.mirror = true;
}

/// Only a failed creation is fatal; a failed drop during a reset is
/// logged and ignored.
pub fn failure_is_fatal(step: SchemaStep) -> (r: bool)
    ensures
        r == (step is Create),
{
    match step {
        SchemaStep::Drop => false,
        SchemaStep::Create => true,
    }
}

/// The statements that initialize the store, in execution order: with
/// `reset` the two drops first, then the table, the mirror, and the tuning
/// parameters.
pub fn schema_statements(reset: bool) -> (r: Vec<String>)
    ensures
        r@.len() == (if reset {
            5int
        } else {
            3int
        }),
        reset ==> r@[0]@ == "DROP TABLE IF EXISTS files_fts"@ && r@[1]@
            == "DROP TABLE IF EXISTS files"@,
        r@[r@.len() - 3]@
            == "CREATE TABLE IF NOT EXISTS files (id INTEGER PRIMARY KEY, path TEXT NOT NULL, filename TEXT NOT NULL, extension TEXT, size INTEGER NOT NULL, modified_at INTEGER NOT NULL, UNIQUE(path))"@,
        r@[r@.len() - 2]@
            == "CREATE VIRTUAL TABLE IF NOT EXISTS files_fts USING fts5(filename, path, extension, content='files', content_rowid='id')"@,
        r@[r@.len() - 1]@
            == "PRAGMA journal_mode = OFF; PRAGMA synchronous = OFF; PRAGMA journal_size_limit = 1000000; PRAGMA cache_size = 100000; PRAGMA temp_store = memory; PRAGMA locking_mode = EXCLUSIVE; PRAGMA mmap_size = 268435456; PRAGMA optimize;"@,
{
    let mut r: Vec<String> = Vec::new();
    if reset {
        r.push("DROP TABLE IF EXISTS files_fts".to_owned());
        r.push("DROP TABLE IF EXISTS files".to_owned());
    }
    r.push(
        "CREATE TABLE IF NOT EXISTS files (id INTEGER PRIMARY KEY, path TEXT NOT NULL, filename TEXT NOT NULL, extension TEXT, size INTEGER NOT NULL, modified_at INTEGER NOT NULL, UNIQUE(path))".to_owned(),
    );
    r.push(
        "CREATE VIRTUAL TABLE IF NOT EXISTS files_fts USING fts5(filename, path, extension, content='files', content_rowid='id')".to_owned(),
    );
    r.push(
        "PRAGMA journal_mode = OFF; PRAGMA synchronous = OFF; PRAGMA journal_size_limit = 1000000; PRAGMA cache_size = 100000; PRAGMA temp_store = memory; PRAGMA locking_mode = EXCLUSIVE; PRAGMA mmap_size = 268435456; PRAGMA optimize;".to_owned(),
    );
    r
}

/// The statement that rebuilds the full-text mirror from the file table,
/// run after the last batch of an ingest so the mirror reflects the rows
/// just committed.
pub fn mirror_rebuild_statement() -> (r: String)
    ensures
        r@ == "INSERT INTO files_fts(files_fts) VALUES('rebuild')"@,
{
    "INSERT INTO files_fts(files_fts) VALUES('rebuild')".to_owned()
}

} // verus!
