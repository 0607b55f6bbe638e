use index_export::entry::{EntryError, IndexEntry};
use index_export::fulltext::{
    dump_sqlite_for_fulltext_search, encode_entry, encode_item, rows, scan_pattern, schema,
};
use index_export::sql::Row;

fn entry(store: &str, file: &[u8]) -> Result<IndexEntry, EntryError> {
    Ok(IndexEntry { store_path: store.to_string(), file_path: file.to_vec() })
}

fn corrupt(message: &str) -> Result<IndexEntry, EntryError> {
    Err(EntryError { message: message.to_string() })
}

#[test]
fn fulltext_schema_declares_the_search_table() {
    assert_eq!(
        schema(),
        vec!["CREATE VIRTUAL TABLE entries USING FTS5(store_path, file_path);".to_string()]
    );
}

#[test]
fn fulltext_scan_pattern_matches_everything() {
    let pattern = scan_pattern().unwrap();
    assert_eq!(pattern.regex().as_str(), ".*");
    assert!(pattern.regex().is_match(b"/bin/sh"));
}

#[test]
fn fulltext_row_count_is_the_number_of_decoded_entries() {
    let items = vec![
        entry("/nix/store/aaa-foo-1.0", b"/bin/foo"),
        corrupt("bad frame"),
        entry("/nix/store/aaa-foo-1.0", b"/share/foo"),
        corrupt("bad store path"),
        entry("/nix/store/bbb-bar-2.0", b"/bin/bar"),
    ];
    assert_eq!(rows(&items).len(), 3);
    assert_eq!(rows(&vec![corrupt("x"), corrupt("y")]).len(), 0);
    assert_eq!(rows(&vec![]).len(), 0);
}

#[test]
fn fulltext_rows_keep_scan_order() {
    let items = vec![
        entry("/nix/store/zzz-last-1", b"/z"),
        corrupt("skip me"),
        entry("/nix/store/aaa-first-1", b"/a"),
        entry("/nix/store/zzz-last-1", b"/y"),
    ];
    assert_eq!(
        rows(&items),
        vec![
            Row::Entry { store_path: "/nix/store/zzz-last-1".to_string(), file_path: "/z".to_string() },
            Row::Entry { store_path: "/nix/store/aaa-first-1".to_string(), file_path: "/a".to_string() },
            Row::Entry { store_path: "/nix/store/zzz-last-1".to_string(), file_path: "/y".to_string() },
        ]
    );
}

#[test]
fn fulltext_file_paths_are_read_as_lossy_text() {
    let row = encode_entry(&IndexEntry {
        store_path: "/nix/store/aaa-foo-1.0".to_string(),
        file_path: vec![b'/', b'a', 0xff, b'b'],
    });
    assert_eq!(
        row,
        Row::Entry {
            store_path: "/nix/store/aaa-foo-1.0".to_string(),
            file_path: "/a\u{fffd}b".to_string(),
        }
    );
    let row = encode_entry(&IndexEntry {
        store_path: "s".to_string(),
        file_path: "/usr/share/größe".as_bytes().to_vec(),
    });
    assert_eq!(
        row,
        Row::Entry { store_path: "s".to_string(), file_path: "/usr/share/größe".to_string() }
    );
}

#[test]
fn fulltext_item_that_failed_gives_no_row() {
    assert_eq!(encode_item(&corrupt("broken")), None);
    assert_eq!(
        encode_item(&entry("s", b"/f")),
        Some(Row::Entry { store_path: "s".to_string(), file_path: "/f".to_string() })
    );
}

#[test]
fn fulltext_dump_text() {
    let items = vec![
        entry("/nix/store/aaa-foo-1.0", b"/bin/foo"),
        corrupt("bad"),
        entry("/nix/store/bbb-it's-2.0", b"/share/it's"),
    ];
    assert_eq!(
        dump_sqlite_for_fulltext_search(&items),
        vec![
            "PRAGMA journal_mode=WAL;".to_string(),
            "PRAGMA synchronous=OFF;".to_string(),
            "CREATE VIRTUAL TABLE entries USING FTS5(store_path, file_path);".to_string(),
            "BEGIN;".to_string(),
            "INSERT INTO entries (store_path, file_path) VALUES ('/nix/store/aaa-foo-1.0', '/bin/foo');"
                .to_string(),
            "INSERT INTO entries (store_path, file_path) VALUES ('/nix/store/bbb-it''s-2.0', '/share/it''s');"
                .to_string(),
            "COMMIT;".to_string(),
        ]
    );
}
