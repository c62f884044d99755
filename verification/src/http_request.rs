//! A parsed request.

use vstd::prelude::*;
use crate::method_verb::HttpMethod;

verus! {

/// One request as read from a connection: the method, the URI with its
/// query string, and the body where the request carries one.
#[derive(Debug)]
pub struct HttpRequest {
    pub method: HttpMethod,
    pub uri: String,
    pub body: Option<String>,
}

/// A request as a mathematical value.
pub struct RequestModel {
    pub method: HttpMethod,
    pub uri: Seq<char>,
    pub body: Option<Seq<char>>,
}

impl View for HttpRequest {
    type V = RequestModel;

    open spec fn view(&self) -> RequestModel {
        RequestModel {
            method: self.method,
            uri: self.uri@,
            body: match self.body {
                Some(text) => Some(text@),
                None => None,
            },
        }
    }
}

} // verus!
