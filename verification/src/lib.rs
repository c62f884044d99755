//! A minimal HTTP server engine: request parsing, route matching and
//! response framing, with every function specified and verified.

pub mod text;
pub mod decimal;
pub mod method_verb;
pub mod http_request;
pub mod http_response;
pub mod uri_params;
pub mod route_map;
pub mod request_parser;
pub mod request_reader;
pub mod http_handler_info;
pub mod web_api;
pub mod handler_adapter;
