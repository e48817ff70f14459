use rustsearch::coordinator::{Coordinator, Holder};
use rustsearch::record::record_for;
use rustsearch::schema::{failure_is_fatal, mirror_rebuild_statement, schema_statements, SchemaStep};
use rustsearch::search::{
    fts_query_statement, like_pattern, like_query_statement, plan_query, resolve_search,
    search_files, search_normal, FtsOutcome, QueryPlan, SearchOutcome, SearchQuery, RESULT_LIMIT,
};
use rustsearch::table::FileTable;
use rustsearch::text::{escape_quotes, str_contains, str_ends_with, str_to_lower, str_trim, u64_to_string};

fn sample_table() -> FileTable {
    let mut t = FileTable::new();
    t.upsert(record_for("/etc/config.toml", 1, 1));
    t.upsert(record_for("/usr/bin/configure.sh", 2, 2));
    t.upsert(record_for("/var/log/syslog", 3, 3));
    t
}

#[test]
fn search_normal_returns_both_matches_in_table_order() {
    let t = sample_table();
    let rows = search_normal(&t, "config");
    let names: Vec<String> = rows.iter().map(|e| e.filename.clone()).collect();
    assert_eq!(names, vec!["config.toml".to_string(), "configure.sh".to_string()]);
}

#[test]
fn search_normal_is_case_insensitive() {
    let t = sample_table();
    let rows = search_normal(&t, "CONFIG");
    assert_eq!(rows.len(), 2);
}

#[test]
fn search_normal_matches_path_as_well_as_filename() {
    let t = sample_table();
    let rows = search_normal(&t, "var/log");
    assert_eq!(rows.len(), 1);
    assert_eq!(rows[0].path, "/var/log/syslog");
}

#[test]
fn search_normal_caps_results() {
    let mut t = FileTable::new();
    for i in 0..60 {
        t.upsert(record_for(&format!("/a/match-{}.txt", i), 1, 1));
    }
    let rows = search_normal(&t, "match");
    assert_eq!(rows.len(), RESULT_LIMIT);
    assert_eq!(rows[0].path, "/a/match-0.txt");
}

#[test]
fn empty_query_answers_blank_without_error() {
    let t = sample_table();
    let plan = plan_query("   ");
    assert!(matches!(plan, QueryPlan::Empty));
    let out = resolve_search(&t, &plan, FtsOutcome::Failed);
    assert!(matches!(out, SearchOutcome::Blank));
}

#[test]
fn rejected_fulltext_query_falls_back_to_substring_scan() {
    let t = sample_table();
    let plan = plan_query("config");
    assert!(matches!(plan, QueryPlan::Primary { .. }));
    let out = resolve_search(&t, &plan, FtsOutcome::Failed);
    match out {
        SearchOutcome::Fallback(rows) => {
            let direct = search_normal(&t, "config");
            let a: Vec<String> = rows.iter().map(|e| e.path.clone()).collect();
            let b: Vec<String> = direct.iter().map(|e| e.path.clone()).collect();
            assert_eq!(a, b);
            assert_eq!(a.len(), 2);
        }
        _ => panic!("expected the fallback path to answer"),
    }
}

#[test]
fn successful_fulltext_rows_pass_through_in_engine_order() {
    let t = sample_table();
    let plan = plan_query("config");
    let engine_rows = vec![record_for("/usr/bin/configure.sh", 2, 2), record_for("/etc/config.toml", 1, 1)];
    let out = resolve_search(&t, &plan, FtsOutcome::Rows(engine_rows));
    match out {
        SearchOutcome::Primary(rows) => {
            assert_eq!(rows.len(), 2);
            assert_eq!(rows[0].path, "/usr/bin/configure.sh");
        }
        _ => panic!("expected the primary path to answer"),
    }
}

#[test]
fn primary_rows_are_capped_at_the_result_limit() {
    let t = sample_table();
    let plan = plan_query("match");
    let engine_rows: Vec<_> = (0..60)
        .map(|i| record_for(&format!("/a/match-{}.txt", i), 1, 1))
        .collect();
    let out = resolve_search(&t, &plan, FtsOutcome::Rows(engine_rows));
    match out {
        SearchOutcome::Primary(rows) => {
            assert_eq!(rows.len(), RESULT_LIMIT);
            assert_eq!(rows[49].path, "/a/match-49.txt");
        }
        _ => panic!("expected the primary path to answer"),
    }
}

#[test]
fn leading_like_marker_forces_fallback() {
    let t = sample_table();
    let plan = plan_query("  LIKE config.to  ");
    match &plan {
        QueryPlan::Forced { pattern } => assert_eq!(pattern, "config.to"),
        _ => panic!("expected a forced plan"),
    }
    let out = resolve_search(&t, &plan, FtsOutcome::Rows(vec![]));
    match out {
        SearchOutcome::Fallback(rows) => {
            assert_eq!(rows.len(), 1);
            assert_eq!(rows[0].filename, "config.toml");
        }
        _ => panic!("expected the fallback path to answer"),
    }
}

#[test]
fn plain_query_plans_primary() {
    let plan = plan_query("  hello world  ");
    match plan {
        QueryPlan::Primary { query } => assert_eq!(query, "hello world"),
        _ => panic!("expected a primary plan"),
    }
}

#[test]
fn replace_characters_strips_punctuation_and_joins_paths() {
    let q = SearchQuery::new();
    assert_eq!(q.replace_characters("a/b(c)?"), "a + bc");
    assert_eq!(q.replace_characters("home/theo"), "home + theo");
    assert_eq!(q.replace_characters("\"x\" & [y] | {z}; <w> = !v@#$"), "x  y  z w  v");
}

#[test]
fn make_query_returns_input_and_leaves_holder_unchanged() {
    let mut q = SearchQuery::new();
    let r = q.make_query("config");
    assert_eq!(r, "config");
    assert_eq!(q.get_original_query(), "");
}

#[test]
fn text_helpers_match_their_specifications() {
    assert!(str_contains("filename.txt", "name"));
    assert!(!str_contains("filename.txt", "nope"));
    assert!(str_contains("abc", ""));
    assert!(str_ends_with("setup.exe", "exe"));
    assert!(!str_ends_with("exe", "setup.exe"));
    assert_eq!(str_trim("  \t hello \n"), "hello");
    assert_eq!(str_trim("   "), "");
    assert_eq!(str_to_lower("MiXeD-42"), "mixed-42");
    assert_eq!(escape_quotes("O'Brien's"), "O''Brien''s");
    assert_eq!(u64_to_string(0), "0");
    assert_eq!(u64_to_string(1234567890), "1234567890");
}

#[test]
fn like_pattern_wraps_query_in_wildcards() {
    assert_eq!(like_pattern("config"), "%config%");
    assert_eq!(like_pattern(""), "%%");
}

#[test]
fn query_statements_are_fixed() {
    assert!(fts_query_statement().contains("files_fts MATCH ?1"));
    assert!(fts_query_statement().ends_with("LIMIT 50"));
    assert!(like_query_statement().contains("filename LIKE ?1 OR path LIKE ?1"));
    assert!(like_query_statement().ends_with("LIMIT 50"));
}

#[test]
fn search_files_plans_and_resolves_in_one_call() {
    let t = sample_table();
    match search_files(&t, "", FtsOutcome::Failed) {
        SearchOutcome::Blank => {}
        _ => panic!("a blank query must answer blank"),
    }
    match search_files(&t, "LIKE syslog", FtsOutcome::Failed) {
        SearchOutcome::Fallback(rows) => assert_eq!(rows[0].filename, "syslog"),
        _ => panic!("a literal marker must force the fallback"),
    }
    match search_files(&t, "config", FtsOutcome::Failed) {
        SearchOutcome::Fallback(rows) => assert_eq!(rows.len(), 2),
        _ => panic!("a failed primary must fall back"),
    }
}

#[test]
fn writer_release_hands_handle_to_waiting_reader() {
    let mut c = Coordinator::new();
    assert!(c.acquire_writer());
    // A query arrives mid-batch: it must wait, but only for this batch.
    let granted = c.acquire_reader().unwrap();
    assert!(!granted);
    c.release_writer();
    assert_eq!(c.holder, Holder::Reader);
    // The writer cannot take the handle back while the reader holds it.
    assert!(!c.acquire_writer());
    c.release_reader();
    assert!(c.acquire_writer());
}

#[test]
fn free_handle_is_granted_to_reader_at_once() {
    let mut c = Coordinator::new();
    let granted = c.acquire_reader().unwrap();
    assert!(granted);
    assert_eq!(c.holder, Holder::Reader);
    assert!(c.acquire_reader().is_err());
}

#[test]
fn schema_statements_cover_reset_and_plain_start() {
    let plain = schema_statements(false);
    assert_eq!(plain.len(), 3);
    assert!(plain[0].starts_with("CREATE TABLE IF NOT EXISTS files "));
    assert!(plain[1].starts_with("CREATE VIRTUAL TABLE IF NOT EXISTS files_fts "));
    assert!(plain[2].contains("PRAGMA journal_mode = OFF"));
    let reset = schema_statements(true);
    assert_eq!(reset.len(), 5);
    assert_eq!(reset[0], "DROP TABLE IF EXISTS files_fts");
    assert_eq!(reset[1], "DROP TABLE IF EXISTS files");
    assert_eq!(
        mirror_rebuild_statement(),
        "INSERT INTO files_fts(files_fts) VALUES('rebuild')"
    );
}

#[test]
fn only_failed_creation_is_fatal() {
    assert!(!failure_is_fatal(SchemaStep::Drop));
    assert!(failure_is_fatal(SchemaStep::Create));
}
