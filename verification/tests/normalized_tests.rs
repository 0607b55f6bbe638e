use index_export::entry::{EntryError, IndexEntry};
use index_export::normalized::{dump_sqlite_normalized, rows, scan_pattern, schema, NormalizedEncoder};
use index_export::sql::Row;
use std::collections::HashSet;

fn entry(store: &str, file: &[u8]) -> Result<IndexEntry, EntryError> {
    Ok(IndexEntry { store_path: store.to_string(), file_path: file.to_vec() })
}

fn corrupt(message: &str) -> Result<IndexEntry, EntryError> {
    Err(EntryError { message: message.to_string() })
}

fn package(id: u64, store: &str) -> Row {
    Row::Package { id, store_path: store.to_string() }
}

fn file(id: u64, package_id: u64, path: &str) -> Row {
    Row::File { id, package_id, file_path: path.to_string() }
}

fn sample() -> Vec<Result<IndexEntry, EntryError>> {
    vec![
        entry("/nix/store/bbb-bar-2.0", b"/bin/bar"),
        entry("/nix/store/aaa-foo-1.0", b"/bin/foo"),
        corrupt("bad frame"),
        entry("/nix/store/bbb-bar-2.0", b"/share/bar"),
        entry("/nix/store/ccc-baz-3.0", b"/bin/baz"),
        entry("/nix/store/aaa-foo-1.0", b"/lib/foo.so"),
    ]
}

#[test]
fn normalized_schema_declares_both_tables() {
    assert_eq!(
        schema(),
        vec![
            "CREATE TABLE packages (id INTEGER PRIMARY KEY, store_path TEXT UNIQUE);".to_string(),
            "CREATE TABLE files (id INTEGER PRIMARY KEY, package_id INTEGER REFERENCES packages(id), file_path TEXT);".to_string(),
        ]
    );
}

#[test]
fn normalized_scan_pattern_is_empty() {
    let pattern = scan_pattern().unwrap();
    assert_eq!(pattern.regex().as_str(), "");
    assert!(pattern.regex().is_match(b"/anything"));
}

#[test]
fn normalized_rows_stream_packages_before_their_first_file() {
    assert_eq!(
        rows(&sample()),
        vec![
            package(1, "/nix/store/bbb-bar-2.0"),
            file(1, 1, "/bin/bar"),
            package(2, "/nix/store/aaa-foo-1.0"),
            file(2, 2, "/bin/foo"),
            file(3, 1, "/share/bar"),
            package(3, "/nix/store/ccc-baz-3.0"),
            file(4, 3, "/bin/baz"),
            file(5, 2, "/lib/foo.so"),
        ]
    );
}

#[test]
fn normalized_counts_match_the_index() {
    let items = sample();
    let rows = rows(&items);
    let packages: Vec<(u64, String)> = rows
        .iter()
        .filter_map(|row| match row {
            Row::Package { id, store_path } => Some((*id, store_path.clone())),
            _ => None,
        })
        .collect();
    let files: Vec<u64> = rows
        .iter()
        .filter_map(|row| match row {
            Row::File { id, .. } => Some(*id),
            _ => None,
        })
        .collect();
    let distinct: HashSet<String> =
        items.iter().filter_map(|item| item.as_ref().ok()).map(|e| e.store_path.clone()).collect();
    let decoded = items.iter().filter(|item| item.is_ok()).count();
    assert_eq!(packages.len(), distinct.len());
    assert_eq!(files.len(), decoded);
    assert_eq!(packages.iter().map(|p| p.0).collect::<Vec<u64>>(), vec![1, 2, 3]);
    assert_eq!(files, vec![1, 2, 3, 4, 5]);
    assert_eq!(packages.len() + files.len(), rows.len());
}

#[test]
fn normalized_rows_of_nothing() {
    assert_eq!(rows(&vec![]), vec![]);
    assert_eq!(rows(&vec![corrupt("a"), corrupt("b")]), vec![]);
}

#[test]
fn normalized_encoder_steps_like_the_whole_run() {
    let items = sample();
    let mut encoder = NormalizedEncoder::new();
    let mut stepped = Vec::new();
    for item in items.iter() {
        stepped.extend(encoder.push(item));
    }
    assert_eq!(stepped, rows(&items));
}

#[test]
fn normalized_encoder_emits_per_item() {
    let mut encoder = NormalizedEncoder::new();
    assert_eq!(encoder.push(&entry("s1", b"/a")), vec![package(1, "s1"), file(1, 1, "/a")]);
    assert_eq!(encoder.push(&corrupt("x")), vec![]);
    assert_eq!(encoder.push(&entry("s1", b"/b")), vec![file(2, 1, "/b")]);
    assert_eq!(encoder.push(&entry("s2", b"/c")), vec![package(2, "s2"), file(3, 2, "/c")]);
    assert_eq!(encoder.push(&entry("s1", &[0xc3, 0x28])), vec![file(4, 1, "\u{fffd}(")]);
}

#[test]
fn normalized_encoder_counts_its_file_rows() {
    let mut encoder = NormalizedEncoder::new();
    assert_eq!(encoder.file_count(), 0);
    encoder.push(&entry("s1", b"/a"));
    encoder.push(&corrupt("x"));
    encoder.push(&entry("s1", b"/b"));
    assert_eq!(encoder.file_count(), 2);
}

#[test]
fn normalized_dump_text() {
    let items = vec![
        entry("/nix/store/aaa-foo-1.0", b"/bin/foo"),
        entry("/nix/store/aaa-foo-1.0", b"/bin/fo'o"),
        corrupt("bad"),
        entry("/nix/store/b'b-bar-2.0", b"/bin/bar"),
    ];
    assert_eq!(
        dump_sqlite_normalized(&items),
        vec![
            "PRAGMA journal_mode=WAL;".to_string(),
            "PRAGMA synchronous=OFF;".to_string(),
            "CREATE TABLE packages (id INTEGER PRIMARY KEY, store_path TEXT UNIQUE);".to_string(),
            "CREATE TABLE files (id INTEGER PRIMARY KEY, package_id INTEGER REFERENCES packages(id), file_path TEXT);".to_string(),
            "BEGIN;".to_string(),
            "INSERT INTO packages (id, store_path) VALUES (1, '/nix/store/aaa-foo-1.0');".to_string(),
            "INSERT INTO files (id, package_id, file_path) VALUES (1, 1, '/bin/foo');".to_string(),
            "INSERT INTO files (id, package_id, file_path) VALUES (2, 1, '/bin/fo''o');".to_string(),
            "INSERT INTO packages (id, store_path) VALUES (2, '/nix/store/b''b-bar-2.0');".to_string(),
            "INSERT INTO files (id, package_id, file_path) VALUES (3, 2, '/bin/bar');".to_string(),
            "COMMIT;".to_string(),
        ]
    );
}
