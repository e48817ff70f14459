//! The file table: one row per indexed path.
//!
//! The table keeps its rows in insertion order and never holds two rows with
//! the same path: ingesting a path that is already present replaces that row
//! in place.  The store behind the process persists the same rows; this type
//! is the authoritative statement of what the writer's upserts do to them.

use vstd::prelude::*;

use crate::record::{FileEntry, FileRecord};

verus! {

/// No two rows share a path.
pub open spec fn paths_unique(rows: Seq<FileRecord>) -> bool {
    forall|i: int, j: int| 0 <= i < j < rows.len() ==> rows[i].path != rows[j].path
}

/// True when some row holds `path`.
pub open spec fn has_path(rows: Seq<FileRecord>, path: Seq<char>) -> bool {
    exists|i: int| 0 <= i < rows.len() && rows[i].path == path
}

/// The first index whose row holds `path`, or `-1` when none does.
pub open spec fn find_path(rows: Seq<FileRecord>, path: Seq<char>) -> int
    decreases rows.len(),
{
    if rows.len() == 0 {
        -1
    } else if rows[0].path == path {
        0
    } else {
        let t = find_path(rows.drop_first(), path);
        if t == -1 {
            -1
        } else {
            t + 1
        }
    }
}

/// How many rows hold `path`.
pub open spec fn count_path(rows: Seq<FileRecord>, path: Seq<char>) -> nat
    decreases rows.len(),
{
    if rows.len() == 0 {
        0
    } else {
        (if rows[0].path == path {
            1nat
        } else {
            0nat
        }) + count_path(rows.drop_first(), path)
    }
}

/// What an upsert does: replace the row holding the same path, or append
/// the record when the path is new.
pub open spec fn spec_upsert(rows: Seq<FileRecord>, r: FileRecord) -> Seq<FileRecord> {
    if has_path(rows, r.path) {
        rows.update(find_path(rows, r.path), r)
    } else {
        rows.push(r)
    }
}

/// `find_path` finds the first occurrence.
pub proof fn lemma_find_path(rows: Seq<FileRecord>, path: Seq<char>)
    ensures
        has_path(rows, path) ==> {
            let k = find_path(rows, path);
            0 <= k < rows.len() && rows[k].path == path && forall|j: int|
                0 <= j < k ==> rows[j].path != path
        },
        !has_path(rows, path) ==> find_path(rows, path) == -1,
    decreases rows.len(),
{
    if rows.len() > 0 && rows[0].path != path {
        let rest = rows.drop_first();
        lemma_find_path(rest, path);
        if has_path(rows, path) {
            let i = choose|i: int| 0 <= i < rows.len() && rows[i].path == path;
            assert(rest[i - 1].path == path);
            assert(has_path(rest, path));
            let k = find_path(rest, path);
            assert(find_path(rows, path) == k + 1);
            assert(rows[k + 1].path == rest[k].path);
            assert forall|j: int| 0 <= j < k + 1 implies rows[j].path != path by {
                if j > 0 {
                    assert(rest[j - 1].path != path);
                }
            }
        } else {
            if has_path(rest, path) {
                let i = choose|i: int| 0 <= i < rest.len() && rest[i].path == path;
                assert(rows[i + 1].path == path);
            }
            assert(find_path(rest, path) == -1);
        }
    }
}

/// A known first occurrence pins `find_path` down.
pub proof fn lemma_find_path_at(rows: Seq<FileRecord>, path: Seq<char>, k: int)
    requires
        0 <= k < rows.len(),
        rows[k].path == path,
        forall|j: int| 0 <= j < k ==> rows[j].path != path,
    ensures
        find_path(rows, path) == k,
{
    lemma_find_path(rows, path);
    let f = find_path(rows, path);
    assert(has_path(rows, path));
    if f < k {
        assert(rows[f].path != path);
    }
    if f > k {
        assert(rows[k].path != path);
    }
}

/// An upsert keeps paths unique.
pub proof fn lemma_upsert_unique(rows: Seq<FileRecord>, r: FileRecord)
    requires
        paths_unique(rows),
    ensures
        paths_unique(spec_upsert(rows, r)),
        has_path(spec_upsert(rows, r), r.path),
{
    let out = spec_upsert(rows, r);
    if has_path(rows, r.path) {
        lemma_find_path(rows, r.path);
        let k = find_path(rows, r.path);
        assert(out[k].path == r.path);
        assert forall|i: int, j: int| 0 <= i < j < out.len() implies out[i].path
            != out[j].path by {
            if i != k && j != k {
                assert(out[i] == rows[i] && out[j] == rows[j]);
            } else if i == k {
                assert(out[j] == rows[j] && rows[j].path != rows[k].path);
            } else {
                assert(out[i] == rows[i] && rows[i].path != rows[k].path);
            }
        }
    } else {
        assert(out[rows.len() as int].path == r.path);
        assert forall|i: int, j: int| 0 <= i < j < out.len() implies out[i].path
            != out[j].path by {
            if j < rows.len() {
                assert(out[i] == rows[i] && out[j] == rows[j]);
            } else {
                assert(out[i] == rows[i] && !(rows[i].path == r.path));
            }
        }
    }
}

/// An upsert leaves the table holding the record's path.
pub proof fn lemma_upsert_adds_path(rows: Seq<FileRecord>, r: FileRecord)
    ensures
        has_path(spec_upsert(rows, r), r.path),
{
    let out = spec_upsert(rows, r);
    if has_path(rows, r.path) {
        lemma_find_path(rows, r.path);
        let k = find_path(rows, r.path);
        assert(out[k].path == r.path);
    } else {
        assert(out[rows.len() as int].path == r.path);
    }
}

/// No row for `path` means its count is zero, and conversely.
pub proof fn lemma_count_path_zero(rows: Seq<FileRecord>, path: Seq<char>)
    ensures
        count_path(rows, path) == 0 <==> !has_path(rows, path),
    decreases rows.len(),
{
    if rows.len() > 0 {
        lemma_count_path_zero(rows.drop_first(), path);
        assert(has_path(rows, path) <==> (rows[0].path == path || has_path(
            rows.drop_first(),
            path,
        ))) by {
            if has_path(rows, path) {
                let i = choose|i: int| 0 <= i < rows.len() && rows[i].path == path;
                if i > 0 {
                    assert(rows.drop_first()[i - 1].path == path);
                }
            }
            if has_path(rows.drop_first(), path) {
                let i = choose|i: int|
                    0 <= i < rows.drop_first().len() && rows.drop_first()[i].path == path;
                assert(rows[i + 1].path == path);
            }
        }
    }
}

/// With unique paths, a present path is held by exactly one row.
pub proof fn lemma_count_path_one(rows: Seq<FileRecord>, path: Seq<char>)
    requires
        paths_unique(rows),
        has_path(rows, path),
    ensures
        count_path(rows, path) == 1,
    decreases rows.len(),
{
    let rest = rows.drop_first();
    assert(paths_unique(rest)) by {
        assert forall|i: int, j: int| 0 <= i < j < rest.len() implies rest[i].path
            != rest[j].path by {
            assert(rest[i] == rows[i + 1] && rest[j] == rows[j + 1]);
        }
    }
    if rows[0].path == path {
        assert(!has_path(rest, path)) by {
            if has_path(rest, path) {
                let i = choose|i: int| 0 <= i < rest.len() && rest[i].path == path;
                assert(rows[i + 1].path == rows[0].path);
            }
        }
        lemma_count_path_zero(rest, path);
    } else {
        assert(has_path(rest, path)) by {
            let i = choose|i: int| 0 <= i < rows.len() && rows[i].path == path;
            assert(rest[i - 1].path == path);
        }
        lemma_count_path_one(rest, path);
    }
}

/// The file table.  Every function that writes rows requires and preserves
/// `well_formed`, so a table reached through `new` and `upsert` alone never
/// holds two rows with one path.
pub struct FileTable {
    pub rows: Vec<FileEntry>,
}

impl View for FileTable {
    type V = Seq<FileRecord>;

    open spec fn view(&self) -> Seq<FileRecord> {
        self.rows@.map_values(|e: FileEntry| e@)
    }
}

impl FileTable {
    /// The table's invariant: no two rows share a path.
    pub open spec fn well_formed(self) -> bool {
        paths_unique(self@)
    }

    /// An empty table.
    pub fn new() -> (t: FileTable)
        ensures
            t@ == Seq::<FileRecord>::empty(),
            t.well_formed(),
    {
        let t = FileTable { rows: Vec::new() };
        proof {
            assert(t@ =~= Seq::<FileRecord>::empty());
        }
        t
    }

    /// How many rows the table holds.
    pub fn row_count(&self) -> (n: usize)
        ensures
            n == self@.len(),
    {
        self.rows.len()
    }

    /// The row at `i`.
    pub fn row(&self, i: usize) -> (e: &FileEntry)
        requires
            i < self@.len(),
        ensures
            e@ == self@[i as int],
    {
        &self.rows[i]
    }

    /// Inserts `e`, replacing in place the row that holds the same path if
    /// one does.
    pub fn upsert(&mut self, e: FileEntry)
        requires
            old(self).well_formed(),
        ensures
            final(self)@ == spec_upsert(old(self)@, e@),
            final(self).well_formed(),
            has_path(final(self)@, e@.path),
    {
        let ghost rows0 = self@;
        let n: usize = self.rows.len();
        let mut i: usize = 0;
        while i < n
            invariant
                n == self.rows@.len(),
                0 <= i <= n,
                self@ == rows0,
                rows0 == old(self)@,
                paths_unique(rows0),
                forall|k: int| 0 <= k < i ==> rows0[k].path != e@.path,
            decreases n - i,
        {
            if self.rows[i].path == e.path {
                proof {
                    assert(rows0[i as int].path == e@.path);
                    lemma_find_path_at(rows0, e@.path, i as int);
                    lemma_upsert_unique(rows0, e@);
                }
                self.rows.remove(i);
                self.rows.insert(i, e);
                proof {
                    assert(self@ =~= rows0.update(i as int, e@));
                }
                return ;
            }
            i = i + 1;
        }
        proof {
            assert(!has_path(rows0, e@.path)) by {
                if has_path(rows0, e@.path) {
                    let k = choose|k: int| 0 <= k < rows0.len() && rows0[k].path == e@.path;
                    assert(rows0[k].path != e@.path);
                }
            }
            lemma_upsert_unique(rows0, e@);
        }
        self.rows.push(e);
        proof {
            assert(self@ =~= rows0.push(e@));
        }
    }
}

/// Ingesting identical content for a path twice is the same as ingesting it
/// once, and afterwards exactly one row holds that path.
pub proof fn lemma_upsert_idempotent(rows: Seq<FileRecord>, r: FileRecord)
    requires
        paths_unique(rows),
    ensures
        spec_upsert(spec_upsert(rows, r), r) == spec_upsert(rows, r),
        count_path(spec_upsert(rows, r), r.path) == 1,
{
    lemma_upsert_unique(rows, r);
    let once = spec_upsert(rows, r);
    lemma_count_path_one(once, r.path);
    lemma_find_path(once, r.path);
    let k = find_path(once, r.path);
    assert(once[k] == r) by {
        if has_path(rows, r.path) {
            lemma_find_path(rows, r.path);
            lemma_find_path_at(once, r.path, find_path(rows, r.path));
        } else {
            lemma_find_path_at(once, r.path, rows.len() as int);
        }
    }
    assert(spec_upsert(once, r) =~= once);
}

} // verus!
