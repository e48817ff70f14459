//! Filter and admission settings for an indexing run.
//!
//! A `Config` is built by the caller before the walk begins and is read-only
//! for the duration of a run.  The walker consults the skip and force lists
//! and the depth bound; the batch writer consults the size cap and the row
//! limit.  `include_hidden` and `skip_binary` are carried for callers but are
//! not consulted by the walker itself: a dotfile is traversed unless a skip
//! rule names it, and no binary detection is attempted here.

use vstd::prelude::*;

verus! {

/// Process-wide filter configuration, immutable once built.
#[derive(Debug, Clone)]
pub struct Config {
    /// Files above this many megabytes are not admitted by the writer.
    pub max_file_size_mb: u64,
    /// A directory at this depth does not enumerate its children.
    pub max_depth: u64,
    /// Carried for callers; the walker does not treat hidden as skipped.
    pub include_hidden: bool,
    /// Carried for callers; no binary detection is wired into this core.
    pub skip_binary: bool,
    /// Maximum number of rows the writer admits in one run.
    pub index_limit: u64,
    /// A directory whose name contains one of these is not descended into.
    pub skip_directories: Vec<String>,
    /// A file whose name ends with one of these is excluded.
    pub skip_extensions: Vec<String>,
    /// A file whose name contains one of these is excluded.
    pub skip_patterns: Vec<String>,
    /// A name containing one of these bypasses every skip rule.
    pub force_include: Vec<String>,
}

impl Default for Config {
    /// The stock configuration: moderate depth, the usual build and
    /// dependency directories skipped, executables excluded.
    fn default() -> (c: Config)
        ensures
            c.max_file_size_mb == 100,
            c.max_depth == 10,
            !c.include_hidden,
            c.skip_binary,
            c.index_limit == 100000,
            c.skip_directories@.len() == 2,
            c.skip_directories@[0]@ == "node_modules"@,
            c.skip_directories@[1]@ == "target"@,
            c.skip_extensions@.len() == 2,
            c.skip_extensions@[0]@ == "exe"@,
            c.skip_extensions@[1]@ == "dll"@,
            c.skip_patterns@.len() == 0,
            c.force_include@.len() == 0,
    {
        Config {
            max_file_size_mb: 100,
            max_depth: 10,
            include_hidden: false,
            skip_binary: true,
            index_limit: 100000,
            skip_directories: vec!["node_modules".to_owned(), "target".to_owned()],
            skip_extensions: vec!["exe".to_owned(), "dll".to_owned()],
            skip_patterns: vec![],
            force_include: vec![],
        }
    }
}

} // verus!
