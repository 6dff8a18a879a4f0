use akgine::web::request::{parse_query, percent_decode, Method, ParsedRequest, QueryParams};

#[test]
fn percent_decode_plain_text_is_unchanged() {
    assert_eq!(percent_decode("hello"), "hello");
}

#[test]
fn percent_decode_escapes_and_plus() {
    assert_eq!(percent_decode("a%20b"), "a b");
    assert_eq!(percent_decode("a+b"), "a b");
    assert_eq!(percent_decode("%41%62%63"), "Abc");
    assert_eq!(percent_decode("caf%C3%A9"), "café");
}

#[test]
fn percent_decode_keeps_malformed_escapes() {
    assert_eq!(percent_decode("100%"), "100%");
    assert_eq!(percent_decode("%4"), "%4");
    assert_eq!(percent_decode("%zz"), "%zz");
    assert_eq!(percent_decode("%-1"), "%-1");
}

#[test]
fn percent_decode_needs_two_hex_digits() {
    assert_eq!(percent_decode("%+F"), "% F");
    assert_eq!(percent_decode("%+1"), "% 1");
}

#[test]
fn percent_decode_replaces_invalid_utf8() {
    assert_eq!(percent_decode("%FF"), "\u{fffd}");
}

#[test]
fn parse_query_reads_pairs() {
    let q = parse_query("a=1&b=x%20y&c");
    assert_eq!(q.len(), 3);
    assert_eq!(q.get("a").map(|s| s.as_str()), Some("1"));
    assert_eq!(q.get("b").map(|s| s.as_str()), Some("x y"));
    assert_eq!(q.get("c").map(|s| s.as_str()), Some(""));
}

#[test]
fn parse_query_skips_empty_pieces_and_later_value_wins() {
    let q = parse_query("&&k=1&&k=2&");
    assert_eq!(q.len(), 1);
    assert_eq!(q.get("k").map(|s| s.as_str()), Some("2"));
}

#[test]
fn parse_query_splits_at_first_equals() {
    let q = parse_query("expr=a=b");
    assert_eq!(q.get("expr").map(|s| s.as_str()), Some("a=b"));
}

#[test]
fn parse_query_empty() {
    assert_eq!(parse_query("").len(), 0);
}

#[test]
fn from_parts_splits_path_and_query() {
    let r = ParsedRequest::from_parts(Method::Get, "/users/5/?limit=10&q=a+b", vec![1, 2]);
    assert_eq!(r.method, Method::Get);
    assert_eq!(r.path, "/users/5");
    assert_eq!(r.body, vec![1, 2]);
    assert_eq!(r.query.get("limit").map(|s| s.as_str()), Some("10"));
    assert_eq!(r.query.get("q").map(|s| s.as_str()), Some("a b"));
}

#[test]
fn from_parts_without_query() {
    let r = ParsedRequest::from_parts(Method::Post, "/a%20b//", Vec::new());
    assert_eq!(r.path, "/a b");
    assert_eq!(r.query.len(), 0);
}

#[test]
fn from_parts_trims_an_encoded_trailing_slash() {
    let r = ParsedRequest::from_parts(Method::Get, "/files%2F", Vec::new());
    assert_eq!(r.path, "/files");
    let r = ParsedRequest::from_parts(Method::Get, "/a%2F/%2f", Vec::new());
    assert_eq!(r.path, "/a");
}

#[test]
fn from_parts_root_path_is_empty() {
    let r = ParsedRequest::from_parts(Method::Get, "/", Vec::new());
    assert_eq!(r.path, "");
}

#[test]
fn from_parts_query_only_after_first_question_mark() {
    let r = ParsedRequest::from_parts(Method::Get, "/p?a=1?b=2", Vec::new());
    assert_eq!(r.path, "/p");
    assert_eq!(r.query.get("a").map(|s| s.as_str()), Some("1?b=2"));
}

fn request_with(key: &str, value: &str) -> ParsedRequest {
    let mut query = QueryParams::new();
    query.insert(key.to_string(), value.to_string());
    ParsedRequest { method: Method::Get, path: String::new(), query, body: Vec::new() }
}

#[test]
fn query_i64_parses_integers() {
    assert_eq!(request_with("n", "42").query_i64("n"), Some(42));
    assert_eq!(request_with("n", "-7").query_i64("n"), Some(-7));
    assert_eq!(request_with("n", "+7").query_i64("n"), Some(7));
    assert_eq!(request_with("n", "007").query_i64("n"), Some(7));
    assert_eq!(
        request_with("n", "-9223372036854775808").query_i64("n"),
        Some(i64::MIN)
    );
    assert_eq!(request_with("n", "9223372036854775807").query_i64("n"), Some(i64::MAX));
}

#[test]
fn query_i64_refuses_non_integers() {
    assert_eq!(request_with("n", "9223372036854775808").query_i64("n"), None);
    assert_eq!(request_with("n", "").query_i64("n"), None);
    assert_eq!(request_with("n", "-").query_i64("n"), None);
    assert_eq!(request_with("n", "+").query_i64("n"), None);
    assert_eq!(request_with("n", "1.5").query_i64("n"), None);
    assert_eq!(request_with("n", " 1").query_i64("n"), None);
    assert_eq!(request_with("n", "+-1").query_i64("n"), None);
    assert_eq!(request_with("n", "1").query_i64("m"), None);
}

#[test]
fn query_i64_agrees_with_std_parse() {
    for text in ["0", "-0", "12x", "99999999999999999999", "-42", "+", "٣"] {
        let expected: Option<i64> = text.parse().ok();
        assert_eq!(request_with("k", text).query_i64("k"), expected, "{text}");
    }
}
