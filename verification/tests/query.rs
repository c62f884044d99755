use sugondese::request_parser::parse_query;
use sugondese::uri_params::Query;

fn assert_pairs(query: &Query, expected: &[(&str, &str)]) {
    assert_eq!(query.len(), expected.len());
    for (key, value) in expected {
        assert_eq!(query.get(key), Some(&value.to_string()));
    }
}

#[test]
fn parse_query_params_empty_list() {
    let query = parse_query("http://localhost:42069/");

    assert_pairs(&query, &[]);
    assert!(query.is_empty());
}

#[test]
fn parse_query_params_not_empty_list() {
    let query = parse_query(
        "http://localhost:42069/some/path?a_param=123&b_param=str&c_param=[123,abc,123]",
    );

    assert_pairs(
        &query,
        &[("a_param", "123"), ("b_param", "str"), ("c_param", "[123,abc,123]")],
    );
}

#[test]
fn parse_query_params_incorrect_query() {
    let query = parse_query("http://localhost:42069/some/path?a_param=123&b_param=");

    assert_pairs(&query, &[("a_param", "123")]);
}

#[test]
fn request_parser_parse_query_params_empty_list() {
    let query = parse_query("http://localhost:42069/");

    assert_pairs(&query, &[]);
}

#[test]
fn request_parser_parse_query_params_not_empty_list() {
    let query = parse_query(
        "http://localhost:42069/some/path?a_param=123&b_param=str&c_param=[123,abc,123]",
    );

    assert_pairs(
        &query,
        &[("a_param", "123"), ("b_param", "str"), ("c_param", "[123,abc,123]")],
    );
}

#[test]
fn request_parser_parse_query_params_incorrect_query() {
    let query = parse_query("/some/path?a_param=123&b_param=");

    assert_pairs(&query, &[("a_param", "123")]);
}

#[test]
fn query_of_empty_uri_is_empty() {
    assert!(parse_query("").is_empty());
}

#[test]
fn query_of_uri_without_mark_is_empty() {
    assert!(parse_query("/some/path").is_empty());
    assert!(parse_query("/a=1&b=2").is_empty());
}

#[test]
fn query_with_two_pairs() {
    let query = parse_query("/p?a=1&b=2");

    assert_pairs(&query, &[("a", "1"), ("b", "2")]);
}

#[test]
fn query_drops_pair_with_empty_value() {
    let query = parse_query("/p?a=1&b=");

    assert_pairs(&query, &[("a", "1")]);
    assert!(!query.contains_key("b"));
}

#[test]
fn query_drops_pair_with_empty_key() {
    let query = parse_query("/p?=1");

    assert_pairs(&query, &[]);
}

#[test]
fn query_drops_piece_without_equals_sign() {
    let query = parse_query("/p?flag&a=1");

    assert_pairs(&query, &[("a", "1")]);
}

#[test]
fn query_only_mark_is_empty() {
    assert!(parse_query("/p?").is_empty());
    assert!(parse_query("?").is_empty());
}

#[test]
fn query_value_holds_what_follows_first_equals_sign() {
    let query = parse_query("/p?a=b=c");

    assert_pairs(&query, &[("a", "b=c")]);
}

#[test]
fn query_later_key_replaces_earlier() {
    let query = parse_query("/p?a=1&a=2");

    assert_pairs(&query, &[("a", "2")]);
}

#[test]
fn query_starts_at_first_mark() {
    let query = parse_query("/p?a=1?b&c=2");

    assert_pairs(&query, &[("a", "1?b"), ("c", "2")]);
}

#[test]
fn query_values_are_not_decoded() {
    let query = parse_query("/p?name=J%C3%BCrgen+M&sm=\u{263a}");

    assert_pairs(&query, &[("name", "J%C3%BCrgen+M"), ("sm", "\u{263a}")]);
}

#[test]
fn query_insert_and_get() {
    let mut query = Query::new();
    assert_eq!(query.len(), 0);
    query.insert("k".to_string(), "v".to_string());
    query.insert("k".to_string(), "w".to_string());
    assert_eq!(query.len(), 1);
    assert_eq!(query.get("k"), Some(&"w".to_string()));
    assert_eq!(query.get("x"), None);
}
