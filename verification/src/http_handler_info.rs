//! What a registration hands to the server: a handler and its route.

use vstd::prelude::*;

verus! {

/// A handler together with the route pattern that it is to serve.
pub struct HttpHandlerInfo<H> {
    pub handler: H,
    pub route: String,
}

} // verus!
