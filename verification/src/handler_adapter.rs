//! Adapting a plain function to the handler contract: which of its
//! parameters is fed from where, and what is answered when the request's
//! body cannot be handed to it.

use vstd::prelude::*;
use vstd::string::StringExecFns;
use crate::http_response::{HttpResponse, HttpStatus};
use crate::text::same_text;

verus! {

/// Where a parameter of an adapted function gets its value from.
#[derive(Debug, Clone, Copy, PartialEq, Eq, Structural)]
pub enum ArgKind {
    /// The path parameters.
    Route,
    /// The query parameters.
    Query,
    /// The request's body, decoded into the parameter's type.
    Body,
}

/// The kind of a parameter whose type has the name `name`: `Route`
/// and `Query` are the two parameter mappings, every other type is read from
/// the body.
pub open spec fn spec_arg_kind(name: Seq<char>) -> ArgKind {
    if name == "Route"@ {
        ArgKind::Route
    } else if name == "Query"@ {
        ArgKind::Query
    } else {
        ArgKind::Body
    }
}

/// The kinds of the parameters with these type names.
pub open spec fn spec_arg_kinds(names: Seq<String>) -> Seq<ArgKind> {
    names.map_values(|name: String| spec_arg_kind(name@))
}

/// How many of the first `n` parameters are read from the body.
pub open spec fn body_count(kinds: Seq<ArgKind>, n: int) -> nat
    decreases n,
{
    if n <= 0 {
        0
    } else if kinds[n - 1] == ArgKind::Body {
        body_count(kinds, n - 1) + 1
    } else {
        body_count(kinds, n - 1)
    }
}

/// The position of the first parameter that is read from the body, among
/// the first `n`.
pub open spec fn spec_first_body_arg(kinds: Seq<ArgKind>, n: int) -> Option<int>
    decreases n,
{
    if n <= 0 {
        None
    } else {
        match spec_first_body_arg(kinds, n - 1) {
            Some(i) => Some(i),
            None => if kinds[n - 1] == ArgKind::Body {
                Some(n - 1)
            } else {
                None
            },
        }
    }
}

/// What the adapter passes for a parameter of this kind: the name of the
/// value that it holds for it.
pub open spec fn spec_argument_name(kind: ArgKind) -> Seq<char> {
    match kind {
        ArgKind::Route => "route"@,
        ArgKind::Query => "query"@,
        ArgKind::Body => "body_obj"@,
    }
}

/// No parameter is read from the body exactly where none counts as such;
/// the first one that is, is of kind `Body` and no earlier one is.
pub proof fn lemma_first_body_arg(kinds: Seq<ArgKind>, n: int)
    requires
        0 <= n <= kinds.len(),
    ensures
        spec_first_body_arg(kinds, n).is_none() <==> body_count(kinds, n) == 0,
        match spec_first_body_arg(kinds, n) {
            Some(i) => {
                &&& 0 <= i < n
                &&& kinds[i] == ArgKind::Body
                &&& forall|k: int| 0 <= k < i ==> kinds[k] != ArgKind::Body
            },
            None => forall|k: int| 0 <= k < n ==> kinds[k] != ArgKind::Body,
        },
    decreases n,
{
    if n > 0 {
        lemma_first_body_arg(kinds, n - 1);
    }
}

/// The kind of a parameter, by the name of its type.
pub fn arg_kind(name: &str) -> (kind: ArgKind)
    ensures
        kind == spec_arg_kind(name@),
{
    if same_text(name, "Route") {
        ArgKind::Route
    } else if same_text(name, "Query") {
        ArgKind::Query
    } else {
        ArgKind::Body
    }
}

/// The kinds of a function's parameters, by the names of their types.
pub fn classify_args(names: &Vec<String>) -> (kinds: Vec<ArgKind>)
    ensures
        kinds@ == spec_arg_kinds(names@),
{
    let mut kinds: Vec<ArgKind> = Vec::new();
    let mut i: usize = 0;
    while i < names.len()
        invariant
            i <= names.len(),
            kinds@ == spec_arg_kinds(names@.take(i as int)),
        decreases names.len() - i,
    {
        kinds.push(arg_kind(names[i].as_str()));
        i += 1;
        assert(kinds@ =~= spec_arg_kinds(names@.take(i as int)));
    }
    assert(names@.take(i as int) =~= names@);
    kinds
}

/// How many parameters are read from the body. A function can be adapted
/// only where this is at most one.
pub fn body_args_count(kinds: &Vec<ArgKind>) -> (count: usize)
    ensures
        count == body_count(kinds@, kinds.len() as int),
{
    let mut count: usize = 0;
    let mut i: usize = 0;
    while i < kinds.len()
        invariant
            i <= kinds.len(),
            count <= i,
            count == body_count(kinds@, i as int),
        decreases kinds.len() - i,
    {
        if kinds[i] == ArgKind::Body {
            count += 1;
        }
        i += 1;
    }
    count
}

/// The position of the first parameter that is read from the body, if
/// there is one.
pub fn first_body_arg(kinds: &Vec<ArgKind>) -> (found: Option<usize>)
    ensures
        match found {
            Some(i) => spec_first_body_arg(kinds@, kinds.len() as int) == Some(i as int),
            None => spec_first_body_arg(kinds@, kinds.len() as int).is_none(),
        },
{
    let mut i: usize = 0;
    while i < kinds.len()
        invariant
            i <= kinds.len(),
            spec_first_body_arg(kinds@, i as int).is_none(),
        decreases kinds.len() - i,
    {
        if kinds[i] == ArgKind::Body {
            proof {
                lemma_first_body_arg_stays(kinds@, i + 1, kinds.len() as int);
            }
            return Some(i);
        }
        i += 1;
    }
    None
}

/// Once a first body parameter is found among the first `n`, it stays the
/// first among more.
pub proof fn lemma_first_body_arg_stays(kinds: Seq<ArgKind>, n: int, m: int)
    requires
        0 <= n <= m,
        spec_first_body_arg(kinds, n).is_some(),
    ensures
        spec_first_body_arg(kinds, m) == spec_first_body_arg(kinds, n),
    decreases m - n,
{
    if n < m {
        lemma_first_body_arg_stays(kinds, n, m - 1);
    }
}

/// The name of the value that the adapter passes for a parameter of this
/// kind.
pub fn argument_name(kind: ArgKind) -> (name: &'static str)
    ensures
        name@ == spec_argument_name(kind),
{
    match kind {
        ArgKind::Route => "route",
        ArgKind::Query => "query",
        ArgKind::Body => "body_obj",
    }
}

/// The name under which the adapted function itself is kept: its own name
/// after an underscore.
pub fn renamed_handler(name: &str) -> (renamed: String)
    ensures
        renamed@ == "_"@ + name@,
{
    let mut renamed = String::from_str("_");
    renamed.append(name);
    renamed
}

/// The name of the function that wraps the adapted one: its name, then
/// `_wrapper`.
pub fn wrapper_name(name: &str) -> (wrapper: String)
    ensures
        wrapper@ == name@ + "_wrapper"@,
{
    let mut wrapper = String::from_str(name);
    wrapper.append("_wrapper");
    wrapper
}

/// The answer to a request without a body, for a function that reads one.
pub fn missing_body_response() -> (response: HttpResponse)
    ensures
        response.status == HttpStatus::BadRequest,
        response.body.is_some(),
        response.body.unwrap()@ == "body missing"@,
{
    HttpResponse { status: HttpStatus::BadRequest, body: Some(String::from_str("body missing")) }
}

/// The answer to a request whose body cannot be decoded into the type that
/// the function reads.
pub fn undecodable_body_response() -> (response: HttpResponse)
    ensures
        response.status == HttpStatus::BadRequest,
        response.body.is_some(),
        response.body.unwrap()@ == "Unable to deserialize body"@,
{
    HttpResponse {
        status: HttpStatus::BadRequest,
        body: Some(String::from_str("Unable to deserialize body")),
    }
}

/// The body that an adapted function can be called with: the request's
/// body where there is one, else the answer to give in place of the call.
pub fn required_body(body: Option<String>) -> (checked: Result<String, HttpResponse>)
    ensures
        match body {
            Some(text) => checked == Ok::<String, HttpResponse>(text),
            None => checked.is_err() && checked.unwrap_err().status == HttpStatus::BadRequest
                && checked.unwrap_err().body.is_some() && checked.unwrap_err().body.unwrap()@
                == "body missing"@,
        },
{
    match body {
        Some(text) => Ok(text),
        None => Err(missing_body_response()),
    }
}

/// The response for what an adapted function returned: its status, and as
/// body its data in encoded form, where it returned any.
pub fn map_response(status: HttpStatus, data: Option<String>) -> (response: HttpResponse)
    ensures
        response.status == status,
        response.body == data,
{
    HttpResponse { status, body: data }
}

} // verus!
