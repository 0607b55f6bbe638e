use index_export::sql::{body_of, dump, epilogue, prologue, Row};

fn text(s: &str) -> String {
    s.to_string()
}

#[test]
fn entry_row_statement() {
    let row = Row::Entry { store_path: text("/nix/store/aaa-foo-1.0"), file_path: text("/bin/foo") };
    assert_eq!(
        row.to_sql(),
        "INSERT INTO entries (store_path, file_path) VALUES ('/nix/store/aaa-foo-1.0', '/bin/foo');"
    );
}

#[test]
fn package_row_statement() {
    let row = Row::Package { id: 12, store_path: text("/nix/store/aaa-foo-1.0") };
    assert_eq!(
        row.to_sql(),
        "INSERT INTO packages (id, store_path) VALUES (12, '/nix/store/aaa-foo-1.0');"
    );
}

#[test]
fn file_row_statement() {
    let row = Row::File { id: 1000, package_id: 3, file_path: text("/share/doc") };
    assert_eq!(
        row.to_sql(),
        "INSERT INTO files (id, package_id, file_path) VALUES (1000, 3, '/share/doc');"
    );
}

#[test]
fn lib_row_statement() {
    let row = Row::Lib { id: 5, package_id: 2, lib_name: text("foo-bar") };
    assert_eq!(
        row.to_sql(),
        "INSERT INTO exported_libs (id, package_id, lib_name) VALUES (5, 2, 'foo-bar');"
    );
}

#[test]
fn statements_double_embedded_quotes() {
    let row = Row::Entry { store_path: text("/nix/store/a'b"), file_path: text("/it's/here'") };
    assert_eq!(
        row.to_sql(),
        "INSERT INTO entries (store_path, file_path) VALUES ('/nix/store/a''b', '/it''s/here''');"
    );
    let row = Row::Package { id: 1, store_path: text("'") };
    assert_eq!(row.to_sql(), "INSERT INTO packages (id, store_path) VALUES (1, '''');");
    let row = Row::File { id: 1, package_id: 1, file_path: text("a''b") };
    assert_eq!(
        row.to_sql(),
        "INSERT INTO files (id, package_id, file_path) VALUES (1, 1, 'a''''b');"
    );
    let row = Row::Lib { id: 1, package_id: 1, lib_name: text("l'b") };
    assert_eq!(
        row.to_sql(),
        "INSERT INTO exported_libs (id, package_id, lib_name) VALUES (1, 1, 'l''b');"
    );
}

#[test]
fn prologue_sets_pragmas_declares_and_begins() {
    let lines = prologue(vec![text("CREATE TABLE t (x);")]);
    assert_eq!(
        lines,
        vec![
            text("PRAGMA journal_mode=WAL;"),
            text("PRAGMA synchronous=OFF;"),
            text("CREATE TABLE t (x);"),
            text("BEGIN;"),
        ]
    );
}

#[test]
fn epilogue_commits() {
    assert_eq!(epilogue(), vec![text("COMMIT;")]);
}

#[test]
fn dump_of_no_rows_is_an_empty_transaction() {
    let lines = dump(vec![], &vec![]);
    assert_eq!(
        lines,
        vec![
            text("PRAGMA journal_mode=WAL;"),
            text("PRAGMA synchronous=OFF;"),
            text("BEGIN;"),
            text("COMMIT;"),
        ]
    );
}

#[test]
fn dump_keeps_the_order_of_rows() {
    let rows = vec![
        Row::Package { id: 2, store_path: text("b") },
        Row::Package { id: 1, store_path: text("a") },
    ];
    let lines = dump(vec![text("CREATE TABLE packages (id, store_path);")], &rows);
    assert_eq!(
        lines,
        vec![
            text("PRAGMA journal_mode=WAL;"),
            text("PRAGMA synchronous=OFF;"),
            text("CREATE TABLE packages (id, store_path);"),
            text("BEGIN;"),
            text("INSERT INTO packages (id, store_path) VALUES (2, 'b');"),
            text("INSERT INTO packages (id, store_path) VALUES (1, 'a');"),
            text("COMMIT;"),
        ]
    );
}

#[test]
fn body_ends_every_line_with_a_line_feed() {
    assert_eq!(body_of(&vec![]), "");
    assert_eq!(body_of(&vec![text("BEGIN;")]), "BEGIN;\n");
    assert_eq!(body_of(&vec![text("a"), text(""), text("b")]), "a\n\nb\n");
}
