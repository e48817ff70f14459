//! The batch writer.
//!
//! The writer consumes the walker's entries: it admits regular files up to
//! the configured size cap and row limit, derives one row per admitted file,
//! groups the rows into bounded batches, renders each batch as one upsert
//! statement for the store, and applies the rows to the file table.  Each
//! batch is one transaction; a failed batch is skipped and the rest still
//! proceed, which is why every property here is also stated over arbitrary
//! sub-sequences of batches.

use vstd::prelude::*;
use vstd::string::StringExecFns;

use crate::config::Config;
use crate::record::{record_for, record_wf, spec_record_for, FileEntry, FileRecord};
use crate::table::{
    count_path, find_path, has_path, lemma_count_path_one, lemma_find_path, paths_unique,
    spec_upsert, FileTable,
};
use crate::text::{dec_str, escape_quotes, sql_escaped, u64_to_string};
use crate::walker::{WalkEntry, WalkEntryV};

verus! {

/// How many rows one transaction carries unless the caller asks otherwise.
pub const DEFAULT_BATCH_SIZE: usize = 500;

/// True when the writer admits an entry: only a regular file no larger
/// than the configured cap in megabytes.
pub open spec fn spec_admitted(e: WalkEntryV, cfg: Config) -> bool {
    !e.is_dir && e.size as nat <= (cfg.max_file_size_mb as nat) * 1048576
}

/// The rows the writer derives from a walk, in encounter order: one per
/// admitted file, before the row limit is applied.
pub open spec fn admitted_records(entries: Seq<WalkEntryV>, cfg: Config) -> Seq<FileRecord> {
    entries.filter(|e: WalkEntryV| spec_admitted(e, cfg)).map_values(
        |e: WalkEntryV| spec_record_for(e.path, e.size, e.modified_at),
    )
}

/// The first `limit` elements, or all of them when fewer.
pub open spec fn capped(rows: Seq<FileRecord>, limit: u64) -> Seq<FileRecord> {
    if rows.len() <= limit {
        rows
    } else {
        rows.subrange(0, limit as int)
    }
}

/// What a run of upserts does to the table, first record first.
pub open spec fn spec_apply(rows: Seq<FileRecord>, batch: Seq<FileRecord>) -> Seq<FileRecord>
    decreases batch.len(),
{
    if batch.len() == 0 {
        rows
    } else {
        spec_upsert(spec_apply(rows, batch.drop_last()), batch.last())
    }
}

/// Decides whether the writer admits one entry.
fn admitted(e: &WalkEntry, cfg: &Config) -> (r: bool)
    ensures
        r == spec_admitted(e@, *cfg),
{
    !e.is_dir && (e.size as u128) <= (cfg.max_file_size_mb as u128) * 1048576
}

/// Builds the rows for one run: one per admitted file in encounter order,
/// stopping at the configured row limit.
pub fn build_records(entries: &Vec<WalkEntry>, cfg: &Config) -> (recs: Vec<FileEntry>)
    ensures
        recs@.map_values(|e: FileEntry| e@) == capped(
            admitted_records(entries@.map_values(|e: WalkEntry| e@), *cfg),
            cfg.index_limit,
        ),
        forall|k: int| 0 <= k < recs@.len() ==> record_wf(#[trigger] recs@[k]@),
{
    let ghost evs = entries@.map_values(|e: WalkEntry| e@);
    let ghost pred = |e: WalkEntryV| spec_admitted(e, *cfg);
    let ghost to_rec = |e: WalkEntryV| spec_record_for(e.path, e.size, e.modified_at);
    let n: usize = entries.len();
    let mut recs: Vec<FileEntry> = Vec::new();
    let mut i: usize = 0;
    proof {
        reveal(Seq::filter);
        assert(recs@.map_values(|e: FileEntry| e@) =~= evs.subrange(0, 0).filter(pred).map_values(
            to_rec,
        ));
    }
    while i < n && (recs.len() as u64) < cfg.index_limit
        invariant
            n == entries@.len(),
            0 <= i <= n,
            evs == entries@.map_values(|e: WalkEntry| e@),
            pred == (|e: WalkEntryV| spec_admitted(e, *cfg)),
            to_rec == (|e: WalkEntryV| spec_record_for(e.path, e.size, e.modified_at)),
            recs@.len() <= cfg.index_limit,
            recs@.map_values(|e: FileEntry| e@) == evs.subrange(0, i as int).filter(
                pred,
            ).map_values(to_rec),
            forall|k: int| 0 <= k < recs@.len() ==> record_wf(#[trigger] recs@[k]@),
        decreases n - i,
    {
        let e = &entries[i];
        proof {
            reveal(Seq::filter);
            let t = evs.subrange(0, i + 1);
            assert(t.drop_last() =~= evs.subrange(0, i as int));
            assert(t.last() == evs[i as int]);
            assert(evs[i as int] == entries@[i as int]@);
        }
        if admitted(e, cfg) {
            let r = record_for(e.path.as_str(), e.size, e.modified_at);
            proof {
                assert(evs[i as int] == entries@[i as int]@);
                assert(r@ == to_rec(evs[i as int]));
            }
            let ghost recs0 = recs@;
            recs.push(r);
            proof {
                reveal(Seq::filter);
                let t = evs.subrange(0, i + 1);
                let sub = evs.subrange(0, i as int);
                assert(t.drop_last() == sub);
                assert(pred(t.last()));
                assert(t.filter(pred) == sub.filter(pred).push(t.last()));
                assert(recs@ == recs0.push(r));
                assert(recs@.map_values(|e: FileEntry| e@) =~= recs0.map_values(
                    |e: FileEntry| e@,
                ).push(r@));
                assert(recs@.map_values(|e: FileEntry| e@) =~= t.filter(pred).map_values(to_rec));
            }
        } else {
            proof {
                reveal(Seq::filter);
                let t = evs.subrange(0, i + 1);
                let sub = evs.subrange(0, i as int);
                assert(t.drop_last() == sub);
                assert(!pred(t.last()));
                assert(t.filter(pred) == sub.filter(pred));
                assert(recs@.map_values(|e: FileEntry| e@) =~= t.filter(pred).map_values(to_rec));
            }
        }
        i = i + 1;
    }
    proof {
        reveal(Seq::filter);
        let prefix = evs.subrange(0, i as int);
        let rest = evs.subrange(i as int, n as int);
        assert(evs =~= prefix + rest);
        Seq::filter_distributes_over_add(prefix, rest, pred);
        let full = admitted_records(evs, *cfg);
        assert(full == (prefix.filter(pred) + rest.filter(pred)).map_values(to_rec));
        assert(full =~= prefix.filter(pred).map_values(to_rec) + rest.filter(pred).map_values(
            to_rec,
        ));
        if i < n {
            assert(recs@.len() == cfg.index_limit);
            assert(full.subrange(0, cfg.index_limit as int) =~= prefix.filter(pred).map_values(
                to_rec,
            ));
        } else {
            assert(prefix =~= evs);
        }
    }
    recs
}

/// One parenthesized value tuple of an upsert statement, the text fields
/// single-quoted with their quotes doubled.
pub open spec fn sql_value_tuple(r: FileRecord) -> Seq<char> {
    "('"@ + sql_escaped(r.path) + "', '"@ + sql_escaped(r.filename) + "', '"@ + sql_escaped(
        r.extension,
    ) + "', "@ + dec_str(r.size as nat) + ", "@ + dec_str(r.modified_at as nat) + ")"@
}

/// The value tuples of a batch, separated by commas, in batch order.
pub open spec fn sql_values_joined(rs: Seq<FileRecord>) -> Seq<char>
    decreases rs.len(),
{
    if rs.len() == 0 {
        Seq::empty()
    } else if rs.len() == 1 {
        sql_value_tuple(rs[0])
    } else {
        sql_values_joined(rs.drop_last()) + ", "@ + sql_value_tuple(rs.last())
    }
}

/// The one upsert statement that persists a whole batch: an
/// insert-or-replace keyed on the path, with every row's values inline.
pub open spec fn insert_sql(rs: Seq<FileRecord>) -> Seq<char> {
    "INSERT OR REPLACE INTO files (path, filename, extension, size, modified_at) VALUES "@
        + sql_values_joined(rs)
}

/// Appends one value tuple to the statement under construction.
fn append_value_tuple(out: &mut String, e: &FileEntry)
    requires
        record_wf(e@),
    ensures
        final(out)@ == old(out)@ + sql_value_tuple(e@),
{
    out.append("('");
    let p = escape_quotes(e.path.as_str());
    out.append(p.as_str());
    out.append("', '");
    let f = escape_quotes(e.filename.as_str());
    out.append(f.as_str());
    out.append("', '");
    let x = escape_quotes(e.extension.as_str());
    out.append(x.as_str());
    out.append("', ");
    let s = u64_to_string(e.size);
    out.append(s.as_str());
    out.append(", ");
    let m = u64_to_string(e.modified_at as u64);
    out.append(m.as_str());
    out.append(")");
    assert(out@ =~= old(out)@ + sql_value_tuple(e@));
}

/// Renders one batch as its upsert statement.
pub fn batch_sql(batch: &Vec<FileEntry>) -> (s: String)
    requires
        batch@.len() > 0,
        forall|k: int| 0 <= k < batch@.len() ==> record_wf(#[trigger] batch@[k]@),
    ensures
        s@ == insert_sql(batch@.map_values(|e: FileEntry| e@)),
{
    let ghost rs = batch@.map_values(|e: FileEntry| e@);
    let n: usize = batch.len();
    let mut out =
        "INSERT OR REPLACE INTO files (path, filename, extension, size, modified_at) VALUES ".to_owned();
    let mut i: usize = 0;
    while i < n
        invariant
            n == batch@.len(),
            0 < n,
            0 <= i <= n,
            rs == batch@.map_values(|e: FileEntry| e@),
            forall|k: int| 0 <= k < batch@.len() ==> record_wf(#[trigger] batch@[k]@),
            out@
                == "INSERT OR REPLACE INTO files (path, filename, extension, size, modified_at) VALUES "@
                + sql_values_joined(rs.subrange(0, i as int)),
        decreases n - i,
    {
        if i > 0 {
            out.append(", ");
        }
        append_value_tuple(&mut out, &batch[i]);
        proof {
            let t = rs.subrange(0, i + 1);
            assert(t.drop_last() =~= rs.subrange(0, i as int));
            assert(t.last() == rs[i as int]);
            if i == 0 {
                assert(sql_values_joined(t) == sql_value_tuple(rs[0]));
                assert(out@ =~=
                    "INSERT OR REPLACE INTO files (path, filename, extension, size, modified_at) VALUES "@
                    + sql_values_joined(t));
            } else {
                assert(sql_values_joined(t) == sql_values_joined(t.drop_last()) + ", "@
                    + sql_value_tuple(t.last()));
                assert(out@ =~=
                    "INSERT OR REPLACE INTO files (path, filename, extension, size, modified_at) VALUES "@
                    + sql_values_joined(t));
            }
        }
        i = i + 1;
    }
    proof {
        assert(rs.subrange(0, n as int) =~= rs);
    }
    out
}

/// The whole transaction that persists one batch: begin, the upsert
/// statement, commit.  One such transaction per batch is the lock-release
/// boundary of the ingest run.
pub fn batch_transaction_sql(batch: &Vec<FileEntry>) -> (s: String)
    requires
        batch@.len() > 0,
        forall|k: int| 0 <= k < batch@.len() ==> record_wf(#[trigger] batch@[k]@),
    ensures
        s@ == "BEGIN TRANSACTION; "@ + insert_sql(batch@.map_values(|e: FileEntry| e@))
            + "; COMMIT;"@,
{
    let mut s = "BEGIN TRANSACTION; ".to_owned();
    let body = batch_sql(batch);
    s.append(body.as_str());
    s.append("; COMMIT;");
    assert(s@ =~= "BEGIN TRANSACTION; "@ + insert_sql(batch@.map_values(|e: FileEntry| e@))
        + "; COMMIT;"@);
    s
}

/// Splits the rows into batches: every batch is full but the last, the
/// last is never empty, and together they are exactly the input in order.
pub fn plan_batches(records: &Vec<FileEntry>, batch_size: usize) -> (chunks: Vec<Vec<FileEntry>>)
    requires
        batch_size > 0,
    ensures
        chunks_flat(chunks@) == records@.map_values(|e: FileEntry| e@),
        forall|k: int| 0 <= k < chunks@.len() ==> 0 < #[trigger] chunks@[k]@.len() <= batch_size,
        forall|k: int| 0 <= k < chunks@.len() - 1 ==> #[trigger] chunks@[k]@.len() == batch_size,
{
    let ghost full = records@.map_values(|e: FileEntry| e@);
    let n: usize = records.len();
    let mut chunks: Vec<Vec<FileEntry>> = Vec::new();
    let mut cur: Vec<FileEntry> = Vec::new();
    let mut i: usize = 0;
    proof {
        assert(chunks_flat(chunks@) + cur@.map_values(|e: FileEntry| e@) =~= full.subrange(0, 0));
    }
    while i < n
        invariant
            n == records@.len(),
            full == records@.map_values(|e: FileEntry| e@),
            0 <= i <= n,
            cur@.len() < batch_size,
            chunks_flat(chunks@) + cur@.map_values(|e: FileEntry| e@) == full.subrange(
                0,
                i as int,
            ),
            forall|k: int| 0 <= k < chunks@.len() ==> #[trigger] chunks@[k]@.len() == batch_size,
        decreases n - i,
    {
        proof {
            let t = full.subrange(0, i + 1);
            assert(t.drop_last() =~= full.subrange(0, i as int));
            assert(t.last() == full[i as int]);
        }
        cur.push(records[i].duplicate());
        let ghost cur1 = cur@;
        if cur.len() == batch_size {
            let ghost chunks0 = chunks@;
            let done = cur;
            cur = Vec::new();
            chunks.push(done);
            proof {
                assert(chunks@.drop_last() =~= chunks0);
                assert(chunks@.last()@ == cur1);
                assert(chunks_flat(chunks@) == chunks_flat(chunks0) + cur1.map_values(
                    |e: FileEntry| e@,
                ));
                assert(cur@.map_values(|e: FileEntry| e@) =~= Seq::<FileRecord>::empty());
                assert(chunks_flat(chunks@) + cur@.map_values(|e: FileEntry| e@) =~= full.subrange(
                    0,
                    i + 1,
                ));
            }
        } else {
            proof {
                assert(chunks_flat(chunks@) + cur@.map_values(|e: FileEntry| e@) =~= full.subrange(
                    0,
                    i + 1,
                ));
            }
        }
        i = i + 1;
    }
    proof {
        assert(full.subrange(0, n as int) =~= full);
    }
    if cur.len() > 0 {
        let ghost before = chunks@;
        chunks.push(cur);
        proof {
            assert(chunks@.drop_last() =~= before);
            assert(chunks_flat(chunks@) =~= chunks_flat(before) + chunks@.last()@.map_values(
                |e: FileEntry| e@,
            ));
        }
    } else {
        proof {
            assert(cur@.map_values(|e: FileEntry| e@) =~= Seq::<FileRecord>::empty());
            assert(chunks_flat(chunks@) + Seq::<FileRecord>::empty() =~= chunks_flat(chunks@));
        }
    }
    chunks
}

/// The rows of a row of batches, in order.
pub open spec fn chunks_flat(chunks: Seq<Vec<FileEntry>>) -> Seq<FileRecord>
    decreases chunks.len(),
{
    if chunks.len() == 0 {
        Seq::empty()
    } else {
        chunks_flat(chunks.drop_last()) + chunks.last()@.map_values(|e: FileEntry| e@)
    }
}

/// Applies one batch to the table, upserting its rows in order.
pub fn apply_batch(table: &mut FileTable, batch: &Vec<FileEntry>)
    requires
        old(table).well_formed(),
    ensures
        final(table)@ == spec_apply(old(table)@, batch@.map_values(|e: FileEntry| e@)),
        final(table).well_formed(),
{
    let ghost rows0 = table@;
    let ghost rs = batch@.map_values(|e: FileEntry| e@);
    let n: usize = batch.len();
    let mut i: usize = 0;
    while i < n
        invariant
            n == batch@.len(),
            0 <= i <= n,
            rs == batch@.map_values(|e: FileEntry| e@),
            rows0 == old(table)@,
            table@ == spec_apply(rows0, rs.subrange(0, i as int)),
            table.well_formed(),
        decreases n - i,
    {
        proof {
            let t = rs.subrange(0, i + 1);
            assert(t.drop_last() =~= rs.subrange(0, i as int));
            assert(t.last() == rs[i as int]);
        }
        let e = batch[i].duplicate();
        table.upsert(e);
        i = i + 1;
    }
    proof {
        assert(rs.subrange(0, n as int) =~= rs);
    }
}

/// The full ingest over the table: derives the admitted rows from a walk
/// and upserts them in order, reporting how many rows were written.
pub fn ingest(table: &mut FileTable, entries: &Vec<WalkEntry>, cfg: &Config) -> (count: usize)
    requires
        old(table).well_formed(),
    ensures
        final(table)@ == spec_apply(
            old(table)@,
            capped(
                admitted_records(entries@.map_values(|e: WalkEntry| e@), *cfg),
                cfg.index_limit,
            ),
        ),
        final(table).well_formed(),
        count == capped(
            admitted_records(entries@.map_values(|e: WalkEntry| e@), *cfg),
            cfg.index_limit,
        ).len(),
{
    let recs = build_records(entries, cfg);
    let count = recs.len();
    apply_batch(table, &recs);
    count
}

/// An upsert never removes a path that the table already holds.
proof fn lemma_upsert_keeps_path(rows: Seq<FileRecord>, r: FileRecord, p: Seq<char>)
    requires
        has_path(rows, p),
    ensures
        has_path(spec_upsert(rows, r), p),
{
    let out = spec_upsert(rows, r);
    let i = choose|i: int| 0 <= i < rows.len() && rows[i].path == p;
    if has_path(rows, r.path) {
        lemma_find_path(rows, r.path);
        let k = find_path(rows, r.path);
        if i == k {
            assert(out[k].path == r.path);
        } else {
            assert(out[i].path == p);
        }
    } else {
        assert(out[i].path == p);
    }
}

/// After a run of upserts the table holds every path the run wrote, and
/// every path it already held.
pub proof fn lemma_apply_keeps_paths(rows: Seq<FileRecord>, batch: Seq<FileRecord>, p: Seq<char>)
    requires
        has_path(rows, p) || exists|k: int| 0 <= k < batch.len() && batch[k].path == p,
    ensures
        has_path(spec_apply(rows, batch), p),
    decreases batch.len(),
{
    if batch.len() == 0 {
    } else {
        let head = spec_apply(rows, batch.drop_last());
        if batch.last().path == p {
            crate::table::lemma_upsert_adds_path(head, batch.last());
        } else {
            if has_path(rows, p) {
                lemma_apply_keeps_paths(rows, batch.drop_last(), p);
            } else {
                let k = choose|k: int| 0 <= k < batch.len() && batch[k].path == p;
                assert(batch.drop_last()[k] == batch[k]);
                lemma_apply_keeps_paths(rows, batch.drop_last(), p);
            }
            lemma_upsert_keeps_path(head, batch.last(), p);
        }
    }
}

/// Path uniqueness survives any run of upserts: in particular any sequence
/// of ingest runs, whichever of their batches were applied.
pub proof fn lemma_apply_preserves_unique(rows: Seq<FileRecord>, batch: Seq<FileRecord>)
    requires
        paths_unique(rows),
    ensures
        paths_unique(spec_apply(rows, batch)),
    decreases batch.len(),
{
    if batch.len() > 0 {
        lemma_apply_preserves_unique(rows, batch.drop_last());
        crate::table::lemma_upsert_unique(spec_apply(rows, batch.drop_last()), batch.last());
    }
}

/// Ingesting a run that writes a file, twice, leaves exactly one row for
/// that file's path.
pub proof fn lemma_ingest_twice_single_row(
    rows: Seq<FileRecord>,
    batch: Seq<FileRecord>,
    r: FileRecord,
)
    requires
        paths_unique(rows),
        exists|k: int| 0 <= k < batch.len() && batch[k].path == r.path,
    ensures
        count_path(spec_apply(spec_apply(rows, batch), batch), r.path) == 1,
{
    let once = spec_apply(rows, batch);
    lemma_apply_preserves_unique(rows, batch);
    lemma_apply_keeps_paths(rows, batch, r.path);
    let twice = spec_apply(once, batch);
    lemma_apply_preserves_unique(once, batch);
    lemma_apply_keeps_paths(once, batch, r.path);
    lemma_count_path_one(twice, r.path);
}

} // verus!
