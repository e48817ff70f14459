//! The query engine.
//!
//! A raw query is first planned: a blank query answers empty at once, a
//! leading `LIKE` marker forces the substring fallback with the rest of the
//! query as the pattern, and anything else is tried against the full-text
//! mirror first.  `resolve_search` then fixes the answer: a full-text success
//! passes the mirror's rows through in their native order, and a full-text
//! failure falls back to the substring scan over the authoritative table,
//! so a query the engine rejects is still answered.

use vstd::prelude::*;

use crate::record::{FileEntry, FileRecord};
use crate::table::FileTable;
use crate::text::{
    is_substring, lower_seq, starts_with, str_contains, str_starts_with, str_to_lower, str_trim,
    trimmed,
};

verus! {

/// No search answer holds more rows than this.
pub const RESULT_LIMIT: usize = 50;

/// A query under construction, as the request loop hands it over.
pub struct SearchQuery {
    pub original_query: String,
    pub query: String,
    pub operations: Vec<String>,
}

/// True for the characters that the full-text tokenizer cannot take and
/// that are therefore dropped from a query.
pub open spec fn is_stripped_char(c: char) -> bool {
    c == '"' || c == '?' || c == '(' || c == ')' || c == '[' || c == ']' || c == '{' || c == '}'
        || c == ';' || c == '!' || c == '@' || c == '#' || c == '$' || c == '&' || c == '|' || c
        == '<' || c == '>' || c == '='
}

/// How one character of a raw query is written in a sanitized full-text
/// query: stripped characters vanish, a path separator becomes a token
/// joiner, everything else stands as itself.
pub open spec fn fts_char(c: char) -> Seq<char> {
    if is_stripped_char(c) {
        Seq::empty()
    } else if c == '/' {
        seq![' ', '+', ' ']
    } else {
        seq![c]
    }
}

/// A whole query sanitized for the full-text engine.
pub open spec fn fts_cleaned(s: Seq<char>) -> Seq<char>
    decreases s.len(),
{
    if s.len() == 0 {
        Seq::empty()
    } else {
        fts_cleaned(s.drop_last()) + fts_char(s.last())
    }
}

impl SearchQuery {
    /// An empty query holder.
    pub fn new() -> (q: SearchQuery)
        ensures
            q.original_query@ == Seq::<char>::empty(),
            q.query@ == Seq::<char>::empty(),
            q.operations@.len() == 0,
    {
        SearchQuery { original_query: String::new(), query: String::new(), operations: Vec::new() }
    }

    /// Sanitizes a raw query for the full-text engine: strips the
    /// punctuation its tokenizer rejects and turns `/` into ` + `.
    pub fn replace_characters(&self, query: &str) -> (r: String)
        ensures
            r@ == fts_cleaned(query@),
    {
        let n: usize = query.unicode_len();
        let mut out = String::new();
        let mut i: usize = 0;
        while i < n
            invariant
                n == query@.len(),
                0 <= i <= n,
                out@ == fts_cleaned(query@.subrange(0, i as int)),
            decreases n - i,
        {
            let c = query.get_char(i);
            proof {
                let t = query@.subrange(0, i + 1);
                assert(t.drop_last() =~= query@.subrange(0, i as int));
                assert(t.last() == query@[i as int]);
            }
            let stripped = c == '"' || c == '?' || c == '(' || c == ')' || c == '[' || c == ']'
                || c == '{' || c == '}' || c == ';' || c == '!' || c == '@' || c == '#' || c == '$'
                || c == '&' || c == '|' || c == '<' || c == '>' || c == '=';
            if stripped {
            } else if c == '/' {
                crate::text::push_char(&mut out, ' ');
                crate::text::push_char(&mut out, '+');
                crate::text::push_char(&mut out, ' ');
            } else {
                crate::text::push_char(&mut out, c);
            }
            assert(out@ =~= fts_cleaned(query@.subrange(0, i + 1)));
            i = i + 1;
        }
        assert(query@.subrange(0, n as int) =~= query@);
        out
    }

    /// Hands the query on verbatim and leaves the holder untouched: the
    /// engine receives the query as typed, and sanitizing stays an
    /// explicit, separate step.
    pub fn make_query(&mut self, query: &str) -> (r: String)
        ensures
            r@ == query@,
            *final(self) == *old(self),
    {
        query.to_owned()
    }

    /// The raw query as last handed to `make_query`.
    pub fn get_original_query(&self) -> (r: &str)
        ensures
            r@ == self.original_query@,
    {
        self.original_query.as_str()
    }
}

/// How a search request is answered.
pub enum QueryPlan {
    /// The query is blank: answer with no rows and touch nothing.
    Empty,
    /// A leading literal marker forces the substring fallback with this
    /// pattern.
    Forced { pattern: String },
    /// Try the full-text mirror with this query, falling back on failure.
    Primary { query: String },
}

/// Plans a raw query: blank answers empty, a leading `LIKE` marker forces
/// the fallback with the rest as pattern, anything else goes to the
/// full-text engine first.
pub fn plan_query(raw: &str) -> (p: QueryPlan)
    ensures
        ({
            let t = trimmed(raw@);
            match p {
                QueryPlan::Empty => t.len() == 0,
                QueryPlan::Forced { pattern } => t.len() > 0 && starts_with(t, "LIKE"@)
                    && pattern@ == trimmed(t.subrange("LIKE"@.len() as int, t.len() as int)),
                QueryPlan::Primary { query } => t.len() > 0 && !starts_with(t, "LIKE"@) && query@
                    == t,
            }
        }),
{
    let t = str_trim(raw);
    let n: usize = t.unicode_len();
    if n == 0 {
        return QueryPlan::Empty;
    }
    if str_starts_with(t, "LIKE") {
        proof {
            reveal_strlit("LIKE");
        }
        let rest = t.substring_char(4, n);
        let pattern = str_trim(rest).to_owned();
        return QueryPlan::Forced { pattern };
    }
    QueryPlan::Primary { query: t.to_owned() }
}

/// True when the row answers the query: the query occurs in its filename
/// or in its path, compared without regard to ASCII case, as the store's
/// substring scan compares.
pub open spec fn record_matches(r: FileRecord, q: Seq<char>) -> bool {
    is_substring(lower_seq(q), lower_seq(r.filename)) || is_substring(lower_seq(q), lower_seq(r.path))
}

/// The rows the substring fallback answers with: every matching row in
/// table order, capped at the result limit.
pub open spec fn spec_search_normal(rows: Seq<FileRecord>, q: Seq<char>) -> Seq<FileRecord> {
    let m = rows.filter(|r: FileRecord| record_matches(r, q));
    if m.len() <= RESULT_LIMIT as int {
        m
    } else {
        m.subrange(0, RESULT_LIMIT as int)
    }
}

/// Every element a filter keeps is an element of the original sequence
/// and satisfies the predicate.
proof fn lemma_filter_subset(rows: Seq<FileRecord>, pred: spec_fn(FileRecord) -> bool)
    ensures
        forall|k: int|
            0 <= k < rows.filter(pred).len() ==> rows.contains(#[trigger] rows.filter(pred)[k])
                && pred(rows.filter(pred)[k]),
    decreases rows.len(),
{
    reveal(Seq::filter);
    if rows.len() > 0 {
        let rest = rows.drop_last();
        lemma_filter_subset(rest, pred);
        let f = rows.filter(pred);
        assert forall|k: int| 0 <= k < f.len() implies rows.contains(#[trigger] f[k]) && pred(
            f[k],
        ) by {
            if pred(rows.last()) && k == f.len() - 1 {
                assert(f[k] == rows.last());
                assert(rows[rows.len() - 1] == rows.last());
            } else {
                assert(f[k] == rest.filter(pred)[k]);
                assert(rest.contains(rest.filter(pred)[k]));
                let i = choose|i: int| 0 <= i < rest.len() && rest[i] == f[k];
                assert(rows[i] == f[k]);
            }
        }
    }
}

/// The fallback never answers with a row that the authoritative table
/// does not hold: every answered row is a row of the table, and it
/// matches the query.
pub proof fn lemma_search_normal_rows_from_table(rows: Seq<FileRecord>, q: Seq<char>)
    ensures
        forall|k: int|
            0 <= k < spec_search_normal(rows, q).len() ==> rows.contains(
                #[trigger] spec_search_normal(rows, q)[k],
            ) && record_matches(spec_search_normal(rows, q)[k], q),
{
    let pred = |r: FileRecord| record_matches(r, q);
    lemma_filter_subset(rows, pred);
    let m = rows.filter(pred);
    let out = spec_search_normal(rows, q);
    assert forall|k: int| 0 <= k < out.len() implies rows.contains(#[trigger] out[k])
        && record_matches(out[k], q) by {
        assert(out[k] == m[k]);
        assert(pred(m[k]));
    }
}

/// Decides whether one row answers the query.
fn entry_matches(e: &FileEntry, q_lower: &str, ghost_q: Ghost<Seq<char>>) -> (r: bool)
    requires
        q_lower@ == lower_seq(ghost_q@),
    ensures
        r == record_matches(e@, ghost_q@),
{
    let name_l = str_to_lower(e.filename.as_str());
    if str_contains(name_l.as_str(), q_lower) {
        return true;
    }
    let path_l = str_to_lower(e.path.as_str());
    str_contains(path_l.as_str(), q_lower)
}

/// The substring fallback: scans the authoritative table in order and
/// answers with every row whose filename or path contains the query,
/// capped at the result limit.
pub fn search_normal(table: &FileTable, q: &str) -> (out: Vec<FileEntry>)
    ensures
        out@.map_values(|e: FileEntry| e@) == spec_search_normal(table@, q@),
        out@.len() <= RESULT_LIMIT,
{
    let ghost pred = |r: FileRecord| record_matches(r, q@);
    let q_lower = str_to_lower(q);
    let n: usize = table.row_count();
    let mut out: Vec<FileEntry> = Vec::new();
    let mut i: usize = 0;
    proof {
        reveal(Seq::filter);
        assert(out@.map_values(|e: FileEntry| e@) =~= table@.subrange(0, 0).filter(pred));
    }
    while i < n && out.len() < RESULT_LIMIT
        invariant
            n == table@.len(),
            0 <= i <= n,
            q_lower@ == lower_seq(q@),
            out@.len() <= RESULT_LIMIT,
            out@.map_values(|e: FileEntry| e@) == table@.subrange(0, i as int).filter(pred),
            pred == (|r: FileRecord| record_matches(r, q@)),
        decreases n - i,
    {
        let e = table.row(i);
        proof {
            reveal(Seq::filter);
            let t = table@.subrange(0, i + 1);
            assert(t.drop_last() =~= table@.subrange(0, i as int));
            assert(t.last() == table@[i as int]);
        }
        if entry_matches(e, q_lower.as_str(), Ghost(q@)) {
            out.push(e.duplicate());
        }
        assert(out@.map_values(|e: FileEntry| e@) =~= table@.subrange(0, i + 1).filter(pred));
        i = i + 1;
    }
    proof {
        reveal(Seq::filter);
        let full = table@;
        let prefix = table@.subrange(0, i as int);
        let rest = table@.subrange(i as int, n as int);
        assert(full =~= prefix + rest);
        Seq::filter_distributes_over_add(prefix, rest, pred);
        if i < n {
            assert(out@.len() == RESULT_LIMIT);
            assert(full.filter(pred).subrange(0, RESULT_LIMIT as int) =~= prefix.filter(pred));
        } else {
            assert(prefix =~= full);
        }
    }
    out
}

/// Answers a raw query in one call: plans it, then resolves it against
/// the table and the full-text outcome.  A caller that wants to attempt
/// the full-text engine only when the plan asks for it uses `plan_query`
/// and `resolve_search` separately; the outcome handed here is consulted
/// only for a primary plan.
pub fn search_files(table: &FileTable, raw: &str, fts: FtsOutcome) -> (out: SearchOutcome)
    ensures
        ({
            let t = trimmed(raw@);
            if t.len() == 0 {
                out matches SearchOutcome::Blank
            } else if starts_with(t, "LIKE"@) {
                out matches SearchOutcome::Fallback(rows) && rows@.map_values(|e: FileEntry| e@)
                    == spec_search_normal(
                    table@,
                    trimmed(t.subrange("LIKE"@.len() as int, t.len() as int)),
                ) && rows@.len() <= RESULT_LIMIT
            } else {
                match fts {
                    FtsOutcome::Rows(r) => out matches SearchOutcome::Primary(rows) && rows@
                        == capped_entries(r@) && rows@.len() <= RESULT_LIMIT,
                    FtsOutcome::Failed => out matches SearchOutcome::Fallback(rows)
                        && rows@.map_values(|e: FileEntry| e@) == spec_search_normal(table@, t)
                        && rows@.len() <= RESULT_LIMIT,
                }
            }
        }),
{
    let plan = plan_query(raw);
    resolve_search(table, &plan, fts)
}

/// The parameter for the store's substring scan: the query wrapped in
/// wildcards, so the scan matches it anywhere in a filename or path.
pub fn like_pattern(q: &str) -> (r: String)
    ensures
        r@ == seq!['%'] + q@ + seq!['%'],
{
    let mut r = String::new();
    crate::text::push_char(&mut r, '%');
    r.append(q);
    crate::text::push_char(&mut r, '%');
    proof {
        assert(r@ =~= seq!['%'] + q@ + seq!['%']);
    }
    r
}

/// The store's full-text query: a match against the mirror, capped at the
/// result limit.
pub fn fts_query_statement() -> (r: String)
    ensures
        r@ == "SELECT path, filename, extension, size, modified_at FROM files_fts JOIN files ON files_fts.rowid = files.id WHERE files_fts MATCH ?1 LIMIT 50"@,
{
    "SELECT path, filename, extension, size, modified_at FROM files_fts JOIN files ON files_fts.rowid = files.id WHERE files_fts MATCH ?1 LIMIT 50".to_owned()
}

/// The store's substring scan over the authoritative table, capped at the
/// result limit.
pub fn like_query_statement() -> (r: String)
    ensures
        r@ == "SELECT path, filename, extension, size, modified_at FROM files WHERE filename LIKE ?1 OR path LIKE ?1 LIMIT 50"@,
{
    "SELECT path, filename, extension, size, modified_at FROM files WHERE filename LIKE ?1 OR path LIKE ?1 LIMIT 50".to_owned()
}

/// The first `RESULT_LIMIT` rows, or all of them when fewer: the cap that
/// every answer tier honours.
pub open spec fn capped_entries(rows: Seq<FileEntry>) -> Seq<FileEntry> {
    if rows.len() <= RESULT_LIMIT as int {
        rows
    } else {
        rows.subrange(0, RESULT_LIMIT as int)
    }
}

/// What the full-text attempt produced, as the store hands it back.
pub enum FtsOutcome {
    /// The engine answered with these rows, in its native relevance order.
    Rows(Vec<FileEntry>),
    /// The engine rejected the query, or the mirror was absent or stale.
    Failed,
}

/// Which path answered a search, with its rows.
pub enum SearchOutcome {
    /// A blank query: no rows, no store access, and no error.
    Blank,
    /// The full-text mirror answered.
    Primary(Vec<FileEntry>),
    /// The substring scan over the authoritative table answered.
    Fallback(Vec<FileEntry>),
}

/// Fixes the answer to a planned query given the full-text outcome: a blank
/// plan answers empty, a forced plan and every full-text failure answer with
/// the substring scan over the authoritative table, and a full-text success
/// passes the mirror's rows through in their order, truncated to the result
/// limit, which thus holds on every tier whatever the store returned.
pub fn resolve_search(table: &FileTable, plan: &QueryPlan, fts: FtsOutcome) -> (out: SearchOutcome)
    ensures
        match *plan {
            QueryPlan::Empty => out matches SearchOutcome::Blank,
            QueryPlan::Forced { pattern } => out matches SearchOutcome::Fallback(rows)
                && rows@.map_values(|e: FileEntry| e@) == spec_search_normal(table@, pattern@)
                && rows@.len() <= RESULT_LIMIT,
            QueryPlan::Primary { query } => match fts {
                FtsOutcome::Rows(r) => out matches SearchOutcome::Primary(rows) && rows@
                    == capped_entries(r@) && rows@.len() <= RESULT_LIMIT,
                FtsOutcome::Failed => out matches SearchOutcome::Fallback(rows)
                    && rows@.map_values(|e: FileEntry| e@) == spec_search_normal(table@, query@)
                    && rows@.len() <= RESULT_LIMIT,
            },
        },
{
    match plan {
        QueryPlan::Empty => SearchOutcome::Blank,
        QueryPlan::Forced { pattern } => SearchOutcome::Fallback(
            search_normal(table, pattern.as_str()),
        ),
        QueryPlan::Primary { query } => match fts {
            FtsOutcome::Rows(r) => {
                let mut rows = r;
                if rows.len() > RESULT_LIMIT {
                    rows.truncate(RESULT_LIMIT);
                }
                SearchOutcome::Primary(rows)
            },
            FtsOutcome::Failed => SearchOutcome::Fallback(search_normal(table, query.as_str())),
        },
    }
}

} // verus!
