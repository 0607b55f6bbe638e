use index_export::pattern::Pattern;

#[test]
fn pattern_keeps_its_source() {
    for source in ["", ".*", r"/lib/pkgconfig/(.*)\.pc", "a|b", r"\d+"] {
        let pattern = Pattern::compile(source).unwrap();
        assert_eq!(pattern.regex().as_str(), source);
    }
}

#[test]
fn pattern_captures_groups_of_the_leftmost_match() {
    let pattern = Pattern::compile(r"(\d+)-(\w+)").unwrap();
    assert_eq!(pattern.capture(b"x 12-ab 34-cd", 0), Some(b"12-ab".to_vec()));
    assert_eq!(pattern.capture(b"x 12-ab 34-cd", 1), Some(b"12".to_vec()));
    assert_eq!(pattern.capture(b"x 12-ab 34-cd", 2), Some(b"ab".to_vec()));
    assert_eq!(pattern.capture(b"x 12-ab 34-cd", 3), None);
    assert_eq!(pattern.capture(b"nothing here", 1), None);
}

#[test]
fn pattern_error_says_what_is_wrong() {
    let error = Pattern::compile("(").err().unwrap();
    assert!(error.message.contains("unclosed group"));
}
