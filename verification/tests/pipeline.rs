use rustsearch::batch::{apply_batch, batch_sql, ingest, plan_batches, DEFAULT_BATCH_SIZE};
use rustsearch::config::Config;
use rustsearch::record::{record_for, FileEntry};
use rustsearch::table::FileTable;
use rustsearch::walker::{walk, FsNode, WalkEntry};

fn test_config() -> Config {
    Config {
        max_file_size_mb: 100,
        max_depth: 10,
        include_hidden: false,
        skip_binary: true,
        index_limit: 100_000,
        skip_directories: vec!["node_modules".to_string(), "target".to_string()],
        skip_extensions: vec!["exe".to_string(), "dll".to_string()],
        skip_patterns: vec![],
        force_include: vec![],
    }
}

fn file(name: &str, size: u64, modified_at: i64) -> FsNode {
    FsNode::File {
        name: name.to_string(),
        size,
        modified_at,
        meta_ok: true,
    }
}

fn dir(name: &str, children: Vec<FsNode>) -> FsNode {
    FsNode::Dir {
        name: name.to_string(),
        meta_ok: true,
        children,
    }
}

fn paths_of(entries: &[WalkEntry]) -> Vec<String> {
    entries.iter().map(|e| e.path.clone()).collect()
}

fn table_paths(t: &FileTable) -> Vec<String> {
    let mut out = Vec::new();
    for i in 0..t.row_count() {
        out.push(t.row(i).path.clone());
    }
    out
}

#[test]
fn upsert_twice_identical_keeps_one_row() {
    let mut t = FileTable::new();
    let e = record_for("/a/config.toml", 10, 5);
    t.upsert(e.duplicate());
    t.upsert(e);
    assert_eq!(t.row_count(), 1);
    assert_eq!(t.row(0).path, "/a/config.toml");
    assert_eq!(t.row(0).size, 10);
}

#[test]
fn upsert_replaces_in_place() {
    let mut t = FileTable::new();
    t.upsert(record_for("/a/one.txt", 1, 1));
    t.upsert(record_for("/a/two.txt", 2, 2));
    t.upsert(record_for("/a/one.txt", 7, 9));
    assert_eq!(t.row_count(), 2);
    assert_eq!(t.row(0).path, "/a/one.txt");
    assert_eq!(t.row(0).size, 7);
    assert_eq!(t.row(0).modified_at, 9);
    assert_eq!(t.row(1).path, "/a/two.txt");
}

#[test]
fn repeated_ingest_runs_keep_paths_unique() {
    let cfg = test_config();
    let root = dir("a", vec![file("x.txt", 1, 1), file("y.txt", 2, 2)]);
    let entries = walk(&root, &cfg);
    let mut t = FileTable::new();
    ingest(&mut t, &entries, &cfg);
    ingest(&mut t, &entries, &cfg);
    ingest(&mut t, &entries, &cfg);
    let paths = table_paths(&t);
    assert_eq!(paths, vec!["/a/x.txt".to_string(), "/a/y.txt".to_string()]);
}

#[test]
fn skip_directory_excludes_descendants() {
    let cfg = test_config();
    let root = dir(
        "a",
        vec![
            file("config.toml", 3, 1),
            dir("node_modules", vec![file("x.js", 4, 1)]),
        ],
    );
    let entries = walk(&root, &cfg);
    let mut t = FileTable::new();
    let count = ingest(&mut t, &entries, &cfg);
    assert_eq!(count, 1);
    let paths = table_paths(&t);
    assert!(paths.contains(&"/a/config.toml".to_string()));
    assert!(!paths.contains(&"/a/node_modules/x.js".to_string()));
}

#[test]
fn force_include_overrides_skip_rules() {
    let mut cfg = test_config();
    cfg.skip_patterns = vec!["secret".to_string()];
    cfg.force_include = vec!["secret-keep".to_string()];
    let root = dir(
        "a",
        vec![file("secret-drop.txt", 1, 1), file("secret-keep.txt", 1, 1)],
    );
    let entries = walk(&root, &cfg);
    let paths = paths_of(&entries);
    assert!(paths.contains(&"/a/secret-keep.txt".to_string()));
    assert!(!paths.contains(&"/a/secret-drop.txt".to_string()));
}

#[test]
fn force_include_overrides_skip_directories() {
    let mut cfg = test_config();
    cfg.force_include = vec!["node_modules".to_string()];
    let root = dir("a", vec![dir("node_modules", vec![file("x.js", 4, 1)])]);
    let entries = walk(&root, &cfg);
    let paths = paths_of(&entries);
    assert!(paths.contains(&"/a/node_modules/x.js".to_string()));
}

#[test]
fn depth_three_yielded_depth_four_not() {
    let mut cfg = test_config();
    cfg.max_depth = 3;
    // root at depth 0; b at 1; c at 2; shallow.txt at 3; d at 3; deep.txt at 4
    let root = dir(
        "a",
        vec![dir(
            "b",
            vec![dir(
                "c",
                vec![file("shallow.txt", 1, 1), dir("d", vec![file("deep.txt", 1, 1)])],
            )],
        )],
    );
    let entries = walk(&root, &cfg);
    let paths = paths_of(&entries);
    assert!(paths.contains(&"/a/b/c/shallow.txt".to_string()));
    assert!(!paths.contains(&"/a/b/c/d/deep.txt".to_string()));
    assert!(paths.contains(&"/a/b/c/d".to_string()));
}

#[test]
fn dotfiles_are_not_implicitly_skipped() {
    let cfg = test_config();
    let root = dir("home", vec![file(".bashrc", 1, 1), dir(".config", vec![file("app.toml", 1, 1)])]);
    let entries = walk(&root, &cfg);
    let paths = paths_of(&entries);
    assert!(paths.contains(&"/home/.bashrc".to_string()));
    assert!(paths.contains(&"/home/.config/app.toml".to_string()));
}

#[test]
fn unreadable_entries_are_dropped_silently() {
    let cfg = test_config();
    let root = dir(
        "a",
        vec![
            FsNode::File {
                name: "bad.txt".to_string(),
                size: 1,
                modified_at: 1,
                meta_ok: false,
            },
            file("good.txt", 1, 1),
        ],
    );
    let entries = walk(&root, &cfg);
    let paths = paths_of(&entries);
    assert!(!paths.contains(&"/a/bad.txt".to_string()));
    assert!(paths.contains(&"/a/good.txt".to_string()));
}

#[test]
fn skip_extension_excludes_file() {
    let cfg = test_config();
    let root = dir("a", vec![file("setup.exe", 1, 1), file("setup.txt", 1, 1)]);
    let entries = walk(&root, &cfg);
    let paths = paths_of(&entries);
    assert!(!paths.contains(&"/a/setup.exe".to_string()));
    assert!(paths.contains(&"/a/setup.txt".to_string()));
}

#[test]
fn oversized_file_not_admitted() {
    let mut cfg = test_config();
    cfg.max_file_size_mb = 1;
    let root = dir(
        "a",
        vec![file("small.txt", 1_048_576, 1), file("big.txt", 1_048_577, 1)],
    );
    let entries = walk(&root, &cfg);
    let mut t = FileTable::new();
    ingest(&mut t, &entries, &cfg);
    let paths = table_paths(&t);
    assert!(paths.contains(&"/a/small.txt".to_string()));
    assert!(!paths.contains(&"/a/big.txt".to_string()));
}

#[test]
fn index_limit_caps_admitted_rows() {
    let mut cfg = test_config();
    cfg.index_limit = 2;
    let root = dir(
        "a",
        vec![file("1.txt", 1, 1), file("2.txt", 1, 1), file("3.txt", 1, 1)],
    );
    let entries = walk(&root, &cfg);
    let mut t = FileTable::new();
    let count = ingest(&mut t, &entries, &cfg);
    assert_eq!(count, 2);
    assert_eq!(table_paths(&t), vec!["/a/1.txt".to_string(), "/a/2.txt".to_string()]);
}

#[test]
fn directories_are_not_persisted() {
    let cfg = test_config();
    let root = dir("a", vec![dir("b", vec![file("c.txt", 1, 1)])]);
    let entries = walk(&root, &cfg);
    let mut t = FileTable::new();
    let count = ingest(&mut t, &entries, &cfg);
    assert_eq!(count, 1);
    assert_eq!(table_paths(&t), vec!["/a/b/c.txt".to_string()]);
}

#[test]
fn record_fields_derive_from_path() {
    let e = record_for("/docs/Report.PDF", 42, 100);
    assert_eq!(e.path, "/docs/Report.PDF");
    assert_eq!(e.filename, "Report.PDF");
    assert_eq!(e.extension, "pdf");
    assert_eq!(e.size, 42);
    assert_eq!(e.modified_at, 100);
}

#[test]
fn record_without_dot_has_empty_extension() {
    let e = record_for("/bin/Makefile", 1, 1);
    assert_eq!(e.filename, "Makefile");
    assert_eq!(e.extension, "");
}

#[test]
fn record_clamps_missing_modification_time() {
    let e = record_for("/a/b.txt", 1, -5);
    assert_eq!(e.modified_at, 0);
}

#[test]
fn batch_sql_renders_one_upsert_statement() {
    let batch = vec![
        record_for("/a/o'brien.txt", 3, 7),
        record_for("/a/b.rs", 10, 20),
    ];
    let sql = batch_sql(&batch);
    assert_eq!(
        sql,
        "INSERT OR REPLACE INTO files (path, filename, extension, size, modified_at) VALUES \
         ('/a/o''brien.txt', 'o''brien.txt', 'txt', 3, 7), ('/a/b.rs', 'b.rs', 'rs', 10, 20)"
    );
}

#[test]
fn batch_transaction_wraps_upsert_in_one_transaction() {
    let batch = vec![record_for("/a/b.rs", 10, 20)];
    let sql = rustsearch::batch::batch_transaction_sql(&batch);
    assert_eq!(
        sql,
        "BEGIN TRANSACTION; INSERT OR REPLACE INTO files (path, filename, extension, size, \
         modified_at) VALUES ('/a/b.rs', 'b.rs', 'rs', 10, 20); COMMIT;"
    );
}

#[test]
fn plan_batches_splits_with_partial_tail() {
    let records: Vec<FileEntry> = (0..5)
        .map(|i| record_for(&format!("/a/{}.txt", i), i as u64, 1))
        .collect();
    let chunks = plan_batches(&records, 2);
    let sizes: Vec<usize> = chunks.iter().map(|c| c.len()).collect();
    assert_eq!(sizes, vec![2, 2, 1]);
    assert_eq!(chunks[2][0].path, "/a/4.txt");
    assert_eq!(DEFAULT_BATCH_SIZE, 500);
}

#[test]
fn apply_batch_matches_ingest() {
    let batch = vec![record_for("/a/x.txt", 1, 1), record_for("/a/x.txt", 2, 2)];
    let mut t = FileTable::new();
    apply_batch(&mut t, &batch);
    assert_eq!(t.row_count(), 1);
    assert_eq!(t.row(0).size, 2);
}
