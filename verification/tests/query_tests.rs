use index_export::entry::{EntryError, IndexEntry};
use index_export::query::{
    answer, parse_query, push_json_string, top_results, HttpReply, QueryError, QueryResponse,
    SearchResult, MAX_RESULTS,
};

fn entry(store: &str, file: &[u8]) -> Result<IndexEntry, EntryError> {
    Ok(IndexEntry { store_path: store.to_string(), file_path: file.to_vec() })
}

fn corrupt(message: &str) -> Result<IndexEntry, EntryError> {
    Err(EntryError { message: message.to_string() })
}

fn result(store: &str, file: &str) -> SearchResult {
    SearchResult { store_path: store.to_string(), file_path: file.to_string() }
}

fn numbered(n: usize) -> Vec<Result<IndexEntry, EntryError>> {
    (0..n).map(|i| entry(&format!("/nix/store/pkg-{}", i), format!("/f{}", i).as_bytes())).collect()
}

#[test]
fn at_most_ten_results() {
    assert_eq!(MAX_RESULTS, 10);
    for total in [0usize, 1, 3, 9, 10, 11, 15, 40] {
        let results = top_results(&numbered(total)).unwrap();
        assert_eq!(results.len(), total.min(10));
    }
}

#[test]
fn match_all_pattern_compiles_and_answers() {
    let pattern = parse_query(Some(".*")).ok().unwrap();
    assert_eq!(pattern.regex().as_str(), ".*");
    let response = answer(".*", &numbered(15)).unwrap();
    assert_eq!(response.query, ".*");
    assert_eq!(response.search_results.len(), 10);
}

#[test]
fn results_are_the_first_items_in_stream_order() {
    let results = top_results(&numbered(12)).unwrap();
    let expected: Vec<SearchResult> =
        (0..10).map(|i| result(&format!("/nix/store/pkg-{}", i), &format!("/f{}", i))).collect();
    assert_eq!(results, expected);
}

#[test]
fn result_paths_are_read_as_lossy_text() {
    let results = top_results(&vec![entry("s", &[b'/', 0x80, b'x'])]).unwrap();
    assert_eq!(results, vec![result("s", "/\u{fffd}x")]);
}

#[test]
fn malformed_pattern_is_refused() {
    match parse_query(Some("(")) {
        Err(QueryError::BadPattern(error)) => assert!(!error.message.is_empty()),
        _ => panic!("an unbalanced parenthesis must not compile"),
    }
    assert!(matches!(parse_query(Some("a{2")), Err(QueryError::BadPattern(_))));
    assert!(matches!(parse_query(Some("[a-")), Err(QueryError::BadPattern(_))));
    assert!(parse_query(Some("foo")).is_ok());
}

#[test]
fn missing_query_is_refused() {
    assert!(matches!(parse_query(None), Err(QueryError::MissingQuery)));
}

#[test]
fn corrupt_item_among_the_first_ten_fails_the_request() {
    let mut items = numbered(12);
    items[4] = corrupt("bad frame");
    items[7] = corrupt("later");
    assert_eq!(
        top_results(&items),
        Err(QueryError::CorruptEntry(EntryError { message: "bad frame".to_string() }))
    );
    assert_eq!(
        answer("x", &items),
        Err(QueryError::CorruptEntry(EntryError { message: "bad frame".to_string() }))
    );
    let mut items = numbered(10);
    items[9] = corrupt("last looked at");
    assert_eq!(
        top_results(&items),
        Err(QueryError::CorruptEntry(EntryError { message: "last looked at".to_string() }))
    );
    assert_eq!(
        top_results(&vec![corrupt("only")]),
        Err(QueryError::CorruptEntry(EntryError { message: "only".to_string() }))
    );
}

#[test]
fn corrupt_item_after_the_first_ten_is_never_seen() {
    let mut items = numbered(12);
    items[10] = corrupt("too late");
    items[11] = corrupt("too late");
    assert_eq!(top_results(&items).unwrap().len(), 10);
}

#[test]
fn json_strings_escape_what_json_requires() {
    for (text, json) in [
        ("", "\"\""),
        ("plain", "\"plain\""),
        ("a\"b", "\"a\\\"b\""),
        ("a\\b", "\"a\\\\b\""),
        ("line\nbreak", "\"line\\nbreak\""),
        ("cr\rtab\t", "\"cr\\rtab\\t\""),
        ("\u{8}\u{c}", "\"\\b\\f\""),
        ("\u{0}\u{1}\u{1f}\u{b}", "\"\\u0000\\u0001\\u001f\\u000b\""),
        ("\u{7f} é 💩 it's", "\"\u{7f} é 💩 it's\""),
        ("/", "\"/\""),
    ] {
        let mut out = String::new();
        push_json_string(&mut out, text);
        assert_eq!(out, json);
    }
}

#[test]
fn response_json_shape() {
    let response = QueryResponse {
        query: "bin/.*sh".to_string(),
        search_results: vec![
            result("/nix/store/aaa-bash-5", "/bin/bash"),
            result("/nix/store/bbb-\"z\"sh", "/bin/z\\sh"),
        ],
    };
    assert_eq!(
        response.to_json(),
        "{\"query\":\"bin/.*sh\",\"search_results\":[[\"/nix/store/aaa-bash-5\",\"/bin/bash\"],[\"/nix/store/bbb-\\\"z\\\"sh\",\"/bin/z\\\\sh\"]]}"
    );
    let empty = QueryResponse { query: "".to_string(), search_results: vec![] };
    assert_eq!(empty.to_json(), "{\"query\":\"\",\"search_results\":[]}");
    let one = QueryResponse { query: "q".to_string(), search_results: vec![result("s", "f")] };
    assert_eq!(one.to_json(), "{\"query\":\"q\",\"search_results\":[[\"s\",\"f\"]]}");
}

#[test]
fn reply_is_ok_with_the_json_body() {
    let response = answer("foo", &vec![entry("/nix/store/aaa-foo-1.0", b"/bin/foo")]).unwrap();
    assert_eq!(
        response.reply(),
        HttpReply {
            status: 200,
            body: "{\"query\":\"foo\",\"search_results\":[[\"/nix/store/aaa-foo-1.0\",\"/bin/foo\"]]}"
                .to_string(),
        }
    );
}

#[test]
fn a_refused_request_leaves_the_next_one_unharmed() {
    assert!(parse_query(Some("(")).is_err());
    assert!(parse_query(Some("(ok)")).is_ok());
    let mut items = numbered(3);
    items[0] = corrupt("bad");
    assert!(answer("(ok)", &items).is_err());
    assert_eq!(answer("(ok)", &numbered(3)).unwrap().search_results.len(), 3);
}
