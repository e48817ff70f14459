//! One row of the file table, and how its fields derive from a path.
//!
//! `filename` is the component after the last slash of the path, and
//! `extension` is the lower-cased suffix after the last dot of the filename,
//! empty when the filename has no dot.

use vstd::prelude::*;

use crate::text::{
    after_last, has_char, last_index_of, lower_seq, str_to_lower, substring_after_last_is,
};

verus! {

/// The mathematical value of one indexed row.
pub ghost struct FileRecord {
    pub path: Seq<char>,
    pub filename: Seq<char>,
    pub extension: Seq<char>,
    pub size: u64,
    pub modified_at: i64,
}

/// One row of the file table: an indexed file with its derived name parts,
/// byte size, and modification time in seconds since the epoch.
#[derive(Debug, Clone)]
pub struct FileEntry {
    pub path: String,
    pub filename: String,
    pub extension: String,
    pub size: u64,
    pub modified_at: i64,
}

impl View for FileEntry {
    type V = FileRecord;

    open spec fn view(&self) -> FileRecord {
        FileRecord {
            path: self.path@,
            filename: self.filename@,
            extension: self.extension@,
            size: self.size,
            modified_at: self.modified_at,
        }
    }
}

impl FileEntry {
    /// An owned copy of the row.
    pub fn duplicate(&self) -> (r: FileEntry)
        ensures
            r@ == self@,
    {
        FileEntry {
            path: self.path.clone(),
            filename: self.filename.clone(),
            extension: self.extension.clone(),
            size: self.size,
            modified_at: self.modified_at,
        }
    }
}

/// The base-name component of a path: what follows the last slash.
pub open spec fn base_name(path: Seq<char>) -> Seq<char> {
    after_last(path, '/')
}

/// The extension of a filename: the lower-cased suffix after the last dot,
/// empty when there is no dot.
pub open spec fn ext_of(filename: Seq<char>) -> Seq<char> {
    if has_char(filename, '.') {
        lower_seq(after_last(filename, '.'))
    } else {
        Seq::empty()
    }
}

/// A well-formed row carries a non-negative modification time.
pub open spec fn record_wf(r: FileRecord) -> bool {
    r.modified_at >= 0
}

/// The record that the writer builds for a file at `path` with the given
/// metadata: name parts derived from the path, time clamped at the epoch
/// when the filesystem reported none.
pub open spec fn spec_record_for(path: Seq<char>, size: u64, modified_at: i64) -> FileRecord {
    FileRecord {
        path: path,
        filename: base_name(path),
        extension: ext_of(base_name(path)),
        size: size,
        modified_at: if modified_at >= 0 {
            modified_at
        } else {
            0
        },
    }
}

/// Builds the row for one file from its path and metadata.
pub fn record_for(path: &str, size: u64, modified_at: i64) -> (e: FileEntry)
    ensures
        e@ == spec_record_for(path@, size, modified_at),
        record_wf(e@),
{
    let filename_part = match last_index_of(path, '/') {
        Some(k) => {
            let n: usize = path.unicode_len();
            let r = path.substring_char(k + 1, n);
            proof {
                substring_after_last_is(path@, '/', k + 1);
            }
            r
        },
        None => {
            proof {
                substring_after_last_is(path@, '/', 0);
                assert(path@.subrange(0, path@.len() as int) =~= path@);
            }
            path
        },
    };
    let filename = filename_part.to_owned();
    let extension = match last_index_of(filename_part, '.') {
        Some(k) => {
            let n: usize = filename_part.unicode_len();
            let raw = filename_part.substring_char(k + 1, n);
            proof {
                substring_after_last_is(filename_part@, '.', k + 1);
            }
            str_to_lower(raw)
        },
        None => String::new(),
    };
    let clamped: i64 = if modified_at >= 0 {
        modified_at
    } else {
        0
    };
    FileEntry { path: path.to_owned(), filename, extension, size, modified_at: clamped }
}

} // verus!
