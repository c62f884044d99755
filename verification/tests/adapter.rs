use sugondese::handler_adapter::{
    arg_kind, argument_name, body_args_count, classify_args, first_body_arg, map_response,
    missing_body_response, renamed_handler, required_body, undecodable_body_response,
    wrapper_name, ArgKind,
};
use sugondese::http_response::HttpStatus;

fn kinds_of(names: &[&str]) -> Vec<ArgKind> {
    classify_args(&names.iter().map(|name| name.to_string()).collect())
}

#[test]
fn parameters_are_told_apart_by_type() {
    assert_eq!(arg_kind("Route"), ArgKind::Route);
    assert_eq!(arg_kind("Query"), ArgKind::Query);
    assert_eq!(arg_kind("NewUser"), ArgKind::Body);
    assert_eq!(arg_kind("route"), ArgKind::Body);
    assert_eq!(arg_kind("String"), ArgKind::Body);
    assert_eq!(arg_kind(""), ArgKind::Body);
}

#[test]
fn parameters_are_classified_in_order() {
    assert_eq!(kinds_of(&[]), vec![]);
    assert_eq!(
        kinds_of(&["Query", "NewUser", "Route"]),
        vec![ArgKind::Query, ArgKind::Body, ArgKind::Route]
    );
}

#[test]
fn body_parameters_are_counted() {
    assert_eq!(body_args_count(&kinds_of(&[])), 0);
    assert_eq!(body_args_count(&kinds_of(&["Route", "Query"])), 0);
    assert_eq!(body_args_count(&kinds_of(&["Route", "User", "Query"])), 1);
    assert_eq!(body_args_count(&kinds_of(&["A", "Route", "B", "C"])), 3);
}

#[test]
fn first_body_parameter_is_found() {
    assert_eq!(first_body_arg(&kinds_of(&[])), None);
    assert_eq!(first_body_arg(&kinds_of(&["Route", "Query"])), None);
    assert_eq!(first_body_arg(&kinds_of(&["Route", "User", "Query"])), Some(1));
    assert_eq!(first_body_arg(&kinds_of(&["A", "B"])), Some(0));
    assert_eq!(first_body_arg(&kinds_of(&["Query", "Route", "B"])), Some(2));
}

#[test]
fn each_kind_has_its_argument() {
    assert_eq!(argument_name(ArgKind::Route), "route");
    assert_eq!(argument_name(ArgKind::Query), "query");
    assert_eq!(argument_name(ArgKind::Body), "body_obj");
}

#[test]
fn names_of_the_generated_functions() {
    assert_eq!(renamed_handler("create_user"), "_create_user");
    assert_eq!(wrapper_name("create_user"), "create_user_wrapper");
    assert_eq!(renamed_handler(""), "_");
    assert_eq!(wrapper_name(""), "_wrapper");
}

#[test]
fn missing_body_is_a_bad_request() {
    let response = missing_body_response();
    assert_eq!(response.status, HttpStatus::BadRequest);
    assert_eq!(response.body, Some("body missing".to_string()));
    assert_eq!(response.to_message(), "HTTP/1.1 400 Bad Request\n\nbody missing");
}

#[test]
fn undecodable_body_is_a_bad_request() {
    let response = undecodable_body_response();
    assert_eq!(response.status, HttpStatus::BadRequest);
    assert_eq!(response.body, Some("Unable to deserialize body".to_string()));
}

#[test]
fn required_body_hands_the_body_on() {
    assert_eq!(
        required_body(Some("{}".to_string())).map_err(|response| response.status),
        Ok("{}".to_string())
    );
    assert_eq!(
        required_body(Some(String::new())).map_err(|response| response.status),
        Ok(String::new())
    );
    let refused = required_body(None).unwrap_err();
    assert_eq!(refused.status, HttpStatus::BadRequest);
    assert_eq!(refused.body, Some("body missing".to_string()));
}

#[test]
fn response_keeps_status_and_data() {
    let response = map_response(HttpStatus::Okay, Some("[1,2]".to_string()));
    assert_eq!(response.status, HttpStatus::Okay);
    assert_eq!(response.body, Some("[1,2]".to_string()));
    let response = map_response(HttpStatus::NotFound, None);
    assert_eq!(response.status, HttpStatus::NotFound);
    assert_eq!(response.body, None);
}
