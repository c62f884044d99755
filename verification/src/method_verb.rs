//! The closed set of request methods.

use vstd::prelude::*;
use crate::text::same_text;

verus! {

/// The request methods the engine understands.
#[derive(Debug, Clone, Copy, PartialEq, Eq, Structural)]
pub enum HttpMethod {
    Get,
    Post,
    Delete,
    Put,
}

/// The method that a request-line token names, if any.
pub open spec fn spec_method_of(token: Seq<char>) -> Option<HttpMethod> {
    if token == "GET"@ {
        Some(HttpMethod::Get)
    } else if token == "POST"@ {
        Some(HttpMethod::Post)
    } else if token == "DELETE"@ {
        Some(HttpMethod::Delete)
    } else if token == "PUT"@ {
        Some(HttpMethod::Put)
    } else {
        None
    }
}

impl HttpMethod {
    /// Parses a request-line token. Only the four upper-case names are
    /// accepted; every other text is an error.
    pub fn from_str(s: &str) -> (res: Result<HttpMethod, String>)
        ensures
            res.is_ok() <==> spec_method_of(s@).is_some(),
            res.is_ok() ==> Some(res.unwrap()) == spec_method_of(s@),
            res.is_err() ==> res.unwrap_err()@ == "Invalid request verb"@,
    {
        if same_text(s, "GET") {
            Ok(HttpMethod::Get)
        } else if same_text(s, "POST") {
            Ok(HttpMethod::Post)
        } else if same_text(s, "DELETE") {
            Ok(HttpMethod::Delete)
        } else if same_text(s, "PUT") {
            Ok(HttpMethod::Put)
        } else {
            Err("Invalid request verb".to_string())
        }
    }
}

impl std::str::FromStr for HttpMethod {
    type Err = String;

    /// Parses a request-line token, as the method of the same name on the
    /// type does: one of the four upper-case names gives its method, every
    /// other text the error.
    fn from_str(s: &str) -> (res: Result<Self, Self::Err>)
        ensures
            res.is_ok() <==> spec_method_of(s@).is_some(),
            res.is_ok() ==> Some(res.unwrap()) == spec_method_of(s@),
            res.is_err() ==> res.unwrap_err()@ == "Invalid request verb"@,
    {
        HttpMethod::from_str(s)
    }
}

/// A token names a method exactly where it is one of the four upper-case
/// names, and each name stands for its own method.
pub proof fn lemma_method_names(token: Seq<char>)
    ensures
        spec_method_of(token).is_some() <==> token == "GET"@ || token == "POST"@ || token
            == "PUT"@ || token == "DELETE"@,
        spec_method_of("GET"@) == Some(HttpMethod::Get),
        spec_method_of("POST"@) == Some(HttpMethod::Post),
        spec_method_of("PUT"@) == Some(HttpMethod::Put),
        spec_method_of("DELETE"@) == Some(HttpMethod::Delete),
{
    reveal_strlit("GET");
    reveal_strlit("POST");
    reveal_strlit("PUT");
    reveal_strlit("DELETE");
    assert("GET"@.len() == 3 && "POST"@.len() == 4 && "PUT"@.len() == 3 && "DELETE"@.len() == 6);
    assert("GET"@[0] == 'G' && "PUT"@[0] == 'P');
}

} // verus!
