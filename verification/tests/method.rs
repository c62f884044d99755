use sugondese::method_verb::HttpMethod;
use sugondese::request_parser::could_have_body;

#[test]
fn the_four_methods_parse() {
    assert_eq!(HttpMethod::from_str("GET"), Ok(HttpMethod::Get));
    assert_eq!(HttpMethod::from_str("POST"), Ok(HttpMethod::Post));
    assert_eq!(HttpMethod::from_str("PUT"), Ok(HttpMethod::Put));
    assert_eq!(HttpMethod::from_str("DELETE"), Ok(HttpMethod::Delete));
}

#[test]
fn other_texts_are_no_method() {
    for text in ["", "get", "Get", "GET ", " GET", "PATCH", "HEAD", "OPTIONS", "GETS", "POS", "G\u{45}T\u{301}"] {
        assert_eq!(
            HttpMethod::from_str(text),
            Err("Invalid request verb".to_string()),
            "{text:?}"
        );
    }
}

#[test]
fn only_post_and_put_may_carry_a_body() {
    assert!(!could_have_body(&HttpMethod::Get));
    assert!(!could_have_body(&HttpMethod::Delete));
    assert!(could_have_body(&HttpMethod::Post));
    assert!(could_have_body(&HttpMethod::Put));
}

#[test]
fn methods_parse_through_the_standard_trait() {
    assert_eq!("PUT".parse::<HttpMethod>(), Ok(HttpMethod::Put));
    assert_eq!(
        "put".parse::<HttpMethod>(),
        Err("Invalid request verb".to_string())
    );
}
