use index_export::mode::{parse_flag, select_mode, usage, Mode};

#[test]
fn flags_name_their_modes() {
    assert_eq!(parse_flag("--dump-sqlite-fulltext-search"), Some(Mode::FullTextDump));
    assert_eq!(parse_flag("--dump-sqlite-normalized"), Some(Mode::NormalizedDump));
    assert_eq!(parse_flag("--dump-sqlite-pkgconfig-libs"), Some(Mode::PkgconfigDump));
}

#[test]
fn legacy_flag_is_the_fulltext_dump() {
    assert_eq!(parse_flag("--dump-sqlite"), Some(Mode::FullTextDump));
}

#[test]
fn other_words_are_no_flags() {
    assert_eq!(parse_flag(""), None);
    assert_eq!(parse_flag("--dump"), None);
    assert_eq!(parse_flag("--dump-sqlite-normalized "), None);
    assert_eq!(parse_flag("--DUMP-SQLITE"), None);
    assert_eq!(parse_flag("--serve"), None);
}

#[test]
fn mode_selection() {
    assert_eq!(select_mode(Some("--dump-sqlite-normalized"), false), Some(Mode::NormalizedDump));
    assert_eq!(select_mode(Some("--dump-sqlite-normalized"), true), Some(Mode::NormalizedDump));
    assert_eq!(select_mode(None, true), Some(Mode::Serve));
    assert_eq!(select_mode(None, false), None);
    assert_eq!(select_mode(Some("--what"), true), None);
    assert_eq!(select_mode(Some("--what"), false), None);
}

#[test]
fn usage_lists_the_flags() {
    assert_eq!(
        usage(),
        "No valid dump flag provided. Available flags: --dump-sqlite-fulltext-search, --dump-sqlite-normalized, --dump-sqlite-pkgconfig-libs"
    );
}
