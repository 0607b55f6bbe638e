use index_export::text::{escape_quotes, push_decimal, push_escaped, same_text};

#[test]
fn doubles_each_single_quote() {
    assert_eq!(escape_quotes("it's"), "it''s");
    assert_eq!(escape_quotes("''"), "''''");
    assert_eq!(escape_quotes("a'b'c"), "a''b''c");
}

#[test]
fn leaves_text_without_quotes_alone() {
    assert_eq!(escape_quotes("plain"), "plain");
    assert_eq!(escape_quotes(""), "");
    assert_eq!(escape_quotes("say \"hi\" \\ ok"), "say \"hi\" \\ ok");
    assert_eq!(escape_quotes("naïve/путь"), "naïve/путь");
}

#[test]
fn escaped_text_reads_back_unchanged() {
    for plain in ["", "'", "''", "o'clock", "/nix/store/abc-it's-1.0", "x''y'"] {
        let escaped = escape_quotes(plain);
        let mut read = String::new();
        let mut chars = escaped.chars();
        while let Some(c) = chars.next() {
            if c == '\'' {
                assert_eq!(chars.next(), Some('\''));
            }
            read.push(c);
        }
        assert_eq!(read, plain);
    }
}

#[test]
fn push_escaped_appends() {
    let mut out = String::from("x=");
    push_escaped(&mut out, "a'b");
    assert_eq!(out, "x=a''b");
}

#[test]
fn decimal_numerals() {
    for (n, text) in [
        (0u64, "0"),
        (7, "7"),
        (9, "9"),
        (10, "10"),
        (42, "42"),
        (100, "100"),
        (1234567890, "1234567890"),
        (u64::MAX, "18446744073709551615"),
    ] {
        let mut out = String::new();
        push_decimal(&mut out, n);
        assert_eq!(out, text);
    }
}

#[test]
fn push_decimal_appends() {
    let mut out = String::from("id ");
    push_decimal(&mut out, 305);
    assert_eq!(out, "id 305");
}

#[test]
fn same_text_compares_by_characters() {
    assert!(same_text("abc", "abc"));
    assert!(same_text("", ""));
    assert!(!same_text("abc", "abd"));
    assert!(!same_text("abc", "ab"));
}
