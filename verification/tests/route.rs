use sugondese::http_response::HttpResponse;
use sugondese::request_parser::parse_route;
use sugondese::route_map::RouteMap;
use sugondese::uri_params::{Query, Route};

type HttpRequestHandler = Box<dyn Fn(Route, Query) -> HttpResponse>;

fn table_of(patterns: &[&str]) -> RouteMap<usize> {
    let mut table = RouteMap::new();
    for (i, pattern) in patterns.iter().enumerate() {
        table.insert(pattern.to_string(), i);
    }
    table
}

fn assert_params(route: &Route, expected: &[(&str, &str)]) {
    assert_eq!(route.len(), expected.len());
    for (name, value) in expected {
        assert_eq!(route.get(name), Some(&value.to_string()));
    }
}

#[test]
fn parse_route_params_empty_list() {
    let expected_handler: HttpRequestHandler = Box::new(|_, _| HttpResponse::ok(None));
    let handler_1: HttpRequestHandler = Box::new(|_, _| HttpResponse::ok(None));
    let handler_2: HttpRequestHandler = Box::new(|_, _| HttpResponse::ok(None));

    let mut handlers = RouteMap::new();
    handlers.insert("/some/very/very/very/long/path".to_string(), handler_1);
    handlers.insert("/some/very/very/long/path".to_string(), expected_handler);
    handlers.insert("/some/very/long/path".to_string(), handler_2);

    let (handler, route) =
        parse_route(&handlers, "/some/very/very/long/path?a_param=123&b_param=");

    assert_params(&route, &[]);
    assert!(route.is_empty());
    assert!(&handler.is_some());
}

#[test]
fn parse_route_params_not_empty_list() {
    let expected_handler: HttpRequestHandler = Box::new(|_, _| HttpResponse::ok(None));
    let handler_1: HttpRequestHandler = Box::new(|_, _| HttpResponse::ok(None));
    let handler_2: HttpRequestHandler = Box::new(|_, _| HttpResponse::ok(None));

    let mut handlers = RouteMap::new();
    handlers.insert("/some/very/{param_1}/very/{param_2}/path".to_string(), handler_1);
    handlers.insert("/some/very/long/path".to_string(), handler_2);
    handlers.insert("/some/{param_1}/very/{param_2}/{param_3}".to_string(), expected_handler);

    let (handler, route) =
        parse_route(&handlers, "/some/very/very/long/path?a_param=123&b_param=");

    assert_params(
        &route,
        &[("param_1", "very"), ("param_2", "long"), ("param_3", "path")],
    );
    assert!(&handler.is_some());
}

#[test]
fn exact_pattern_wins_over_placeholder() {
    let table = table_of(&["/x", "/{p}"]);
    let (handler, route) = parse_route(&table, "/x");
    assert_eq!(handler, Some(&0));
    assert!(route.is_empty());

    let table = table_of(&["/{p}", "/x"]);
    let (handler, route) = parse_route(&table, "/x");
    assert_eq!(handler, Some(&1));
    assert!(route.is_empty());
}

#[test]
fn placeholder_serves_other_paths() {
    let table = table_of(&["/x", "/{p}"]);
    let (handler, route) = parse_route(&table, "/y");
    assert_eq!(handler, Some(&1));
    assert_params(&route, &[("p", "y")]);
}

#[test]
fn placeholders_capture_segments() {
    let table = table_of(&["/a/{p1}/b/{p2}"]);
    let (handler, route) = parse_route(&table, "/a/foo/b/bar");
    assert_eq!(handler, Some(&0));
    assert_params(&route, &[("p1", "foo"), ("p2", "bar")]);
}

#[test]
fn segment_count_mismatch_never_matches() {
    let table = table_of(&["/a/{p}"]);
    let (handler, route) = parse_route(&table, "/a/b/c");
    assert_eq!(handler, None);
    assert!(route.is_empty());

    let (handler, route) = parse_route(&table, "/a");
    assert_eq!(handler, None);
    assert!(route.is_empty());
}

#[test]
fn literal_segment_mismatch_rejects_pattern() {
    let table = table_of(&["/a/{p}/c"]);
    let (handler, route) = parse_route(&table, "/a/b/d");
    assert_eq!(handler, None);
    assert!(route.is_empty());
}

#[test]
fn last_matching_pattern_wins() {
    let table = table_of(&["/{a}/x", "/y/{b}", "/{c}/{d}"]);
    let (handler, route) = parse_route(&table, "/y/x");
    assert_eq!(handler, Some(&2));
    assert_params(&route, &[("c", "y"), ("d", "x")]);

    let table = table_of(&["/{c}/{d}", "/{a}/x", "/y/{b}"]);
    let (handler, route) = parse_route(&table, "/y/x");
    assert_eq!(handler, Some(&2));
    assert_params(&route, &[("b", "x")]);
}

#[test]
fn rejected_later_pattern_keeps_earlier_match() {
    let table = table_of(&["/{a}/x", "/z/{b}"]);
    let (handler, route) = parse_route(&table, "/y/x");
    assert_eq!(handler, Some(&0));
    assert_params(&route, &[("a", "y")]);
}

#[test]
fn query_string_is_left_out_of_the_match() {
    let table = table_of(&["/a/{id}"]);
    let (handler, route) = parse_route(&table, "/a/7?x=1/2/3");
    assert_eq!(handler, Some(&0));
    assert_params(&route, &[("id", "7")]);
}

#[test]
fn empty_table_matches_nothing() {
    let table = table_of(&[]);
    let (handler, route) = parse_route(&table, "/");
    assert_eq!(handler, None);
    assert!(route.is_empty());
}

#[test]
fn segment_equal_to_placeholder_text_is_not_captured() {
    let table = table_of(&["/{a}/{b}"]);
    let (handler, route) = parse_route(&table, "/{a}/v");
    assert_eq!(handler, Some(&0));
    assert_params(&route, &[("b", "v")]);
}

#[test]
fn braces_alone_are_no_placeholder() {
    let table = table_of(&["/{", "/}", "/{x", "/x}"]);
    let (handler, _) = parse_route(&table, "/y");
    assert_eq!(handler, None);

    let table = table_of(&["/{}"]);
    let (handler, route) = parse_route(&table, "/y");
    assert_eq!(handler, Some(&0));
    assert_params(&route, &[("", "y")]);
}

#[test]
fn repeated_placeholder_name_keeps_last_segment() {
    let table = table_of(&["/{p}/{p}"]);
    let (handler, route) = parse_route(&table, "/1/2");
    assert_eq!(handler, Some(&0));
    assert_params(&route, &[("p", "2")]);
}

#[test]
fn route_map_insert_replaces_in_place() {
    let mut table = RouteMap::new();
    table.insert("/a".to_string(), 1);
    table.insert("/b".to_string(), 2);
    table.insert("/a".to_string(), 3);
    assert_eq!(table.len(), 2);
    assert_eq!(table.pattern(0), "/a");
    assert_eq!(table.handler(0), &3);
    assert_eq!(table.get("/a"), Some(&3));
    assert_eq!(table.get("/b"), Some(&2));
    assert_eq!(table.get("/c"), None);
    assert_eq!(table.position("/b"), Some(1));
    assert_eq!(table.position("/c"), None);
}
