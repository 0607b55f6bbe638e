use index_export::dedup::KeyTable;

#[test]
fn keys_are_assigned_in_first_seen_order() {
    let mut table = KeyTable::new();
    assert_eq!(table.len(), 0);
    assert_eq!(table.intern("b"), (1, true));
    assert_eq!(table.intern("a"), (2, true));
    assert_eq!(table.intern("b"), (1, false));
    assert_eq!(table.intern("c"), (3, true));
    assert_eq!(table.intern("a"), (2, false));
    assert_eq!(table.len(), 3);
}

#[test]
fn lookup_does_not_assign() {
    let mut table = KeyTable::new();
    assert_eq!(table.get("x"), None);
    assert_eq!(table.len(), 0);
    table.intern("x");
    assert_eq!(table.get("x"), Some(1));
    assert_eq!(table.get("y"), None);
    assert_eq!(table.len(), 1);
}

#[test]
fn keys_differ_for_texts_that_differ_in_one_character() {
    let mut table = KeyTable::new();
    assert_eq!(table.intern("/nix/store/aaa-foo-1.0"), (1, true));
    assert_eq!(table.intern("/nix/store/aaa-foo-1.1"), (2, true));
    assert_eq!(table.intern(""), (3, true));
    assert_eq!(table.get("/nix/store/aaa-foo-1.0"), Some(1));
    assert_eq!(table.get(""), Some(3));
}
