//! The server's configuration and its dispatch: the routes of each method,
//! and the answer to a parsed request.

use vstd::prelude::*;
use crate::http_handler_info::HttpHandlerInfo;
use crate::http_request::HttpRequest;
use crate::http_response::{HttpResponse, HttpStatus};
use crate::method_verb::HttpMethod;
use crate::request_parser::{parse_query, parse_route, spec_parse_query, spec_route_index,
    spec_route_params};
use crate::route_map::{handlers_with, patterns_with, RouteMap};
use crate::uri_params::{Query, Route};

verus! {

/// The routes of the four methods. No table is shared between methods.
pub struct Endpoints<H> {
    pub get_endpoints: RouteMap<H>,
    pub post_endpoints: RouteMap<H>,
    pub delete_endpoints: RouteMap<H>,
    pub put_endpoints: RouteMap<H>,
}

/// A server under configuration: where to listen, how many workers to
/// run, and the routes.
pub struct WebApi<'a, H> {
    addr: &'a str,
    threads_num: usize,
    endpoints: Endpoints<H>,
}

impl<H> Endpoints<H> {
    /// Each of the four tables is well formed.
    pub open spec fn well_formed(&self) -> bool {
        &&& self.get_endpoints.well_formed()
        &&& self.post_endpoints.well_formed()
        &&& self.delete_endpoints.well_formed()
        &&& self.put_endpoints.well_formed()
    }

    /// The table of a method.
    pub open spec fn table(&self, method: HttpMethod) -> RouteMap<H> {
        match method {
            HttpMethod::Get => self.get_endpoints,
            HttpMethod::Post => self.post_endpoints,
            HttpMethod::Delete => self.delete_endpoints,
            HttpMethod::Put => self.put_endpoints,
        }
    }

    /// Four empty tables.
    pub fn new() -> (endpoints: Endpoints<H>)
        ensures
            endpoints.well_formed(),
            forall|method: HttpMethod| #[trigger]
                endpoints.table(method).patterns() == Seq::<Seq<char>>::empty(),
    {
        Endpoints {
            get_endpoints: RouteMap::new(),
            post_endpoints: RouteMap::new(),
            delete_endpoints: RouteMap::new(),
            put_endpoints: RouteMap::new(),
        }
    }
}

/// The table in which the routes of `method` are looked up.
pub fn get_endpoints_map<'a, H>(method: &HttpMethod, endpoints: &'a Endpoints<H>) -> (table:
    &'a RouteMap<H>)
    ensures
        *table == endpoints.table(*method),
{
    match method {
        HttpMethod::Get => &endpoints.get_endpoints,
        HttpMethod::Post => &endpoints.post_endpoints,
        HttpMethod::Delete => &endpoints.delete_endpoints,
        HttpMethod::Put => &endpoints.put_endpoints,
    }
}

/// Whether `after` is `before` with `handler` registered for `pattern`
/// under `method`, and the tables of the other methods as they were.
pub open spec fn registered<H>(
    before: Endpoints<H>,
    after: Endpoints<H>,
    method: HttpMethod,
    pattern: Seq<char>,
    handler: H,
) -> bool {
    &&& after.well_formed()
    &&& after.table(method).patterns() == patterns_with(before.table(method).patterns(), pattern)
    &&& after.table(method).handlers() == handlers_with(
        before.table(method).patterns(),
        before.table(method).handlers(),
        pattern,
        handler,
    )
    &&& forall|other: HttpMethod| other != method ==> after.table(other) == before.table(other)
}

/// Whether each of the handlers may be called with every route, query and
/// body.
pub open spec fn accepts_all<H: Fn(Route, Query, Option<String>) -> HttpResponse>(
    handlers: Seq<H>,
) -> bool {
    forall|i: int, route: Route, query: Query, body: Option<String>|
        0 <= i < handlers.len() ==> #[trigger] call_requires(handlers[i], (route, query, body))
}

/// Whether `response` answers `request` over `table`: a bodiless not-found
/// status where the URI is routed to no pattern; else what the handler of
/// the pattern it is routed to may return for the path parameters that the
/// pattern captures, the query parameters of the URI, and the request's
/// body.
pub open spec fn answers<H: Fn(Route, Query, Option<String>) -> HttpResponse>(
    table: RouteMap<H>,
    request: HttpRequest,
    response: HttpResponse,
) -> bool {
    match spec_route_index(table.patterns(), request.uri@) {
        Some(i) => exists|route: Route, query: Query|
            {
                &&& route@ == spec_route_params(table.patterns(), request.uri@)
                &&& query@ == spec_parse_query(request.uri@)
                &&& call_ensures(table.handlers()[i], (route, query, request.body), response)
            },
        None => response.status == HttpStatus::NotFound && response.body.is_none(),
    }
}

/// Answers a parsed request over the table of its method: routes the URI,
/// calls the handler with the path parameters, the query parameters and the
/// body, and hands back what the handler returns; answers with a not-found
/// status where no route matches.
pub fn handle_request<H>(request: HttpRequest, endpoints: &RouteMap<H>) -> (response:
    HttpResponse) where H: Fn(Route, Query, Option<String>) -> HttpResponse
    requires
        endpoints.well_formed(),
        accepts_all(endpoints.handlers()),
    ensures
        answers(*endpoints, request, response),
{
    let (handler, route) = parse_route(endpoints, request.uri.as_str());
    match handler {
        Some(handler) => {
            let query = parse_query(request.uri.as_str());
            let ghost i = spec_route_index(endpoints.patterns(), request.uri@).unwrap();
            assert(call_requires(endpoints.handlers()[i], (route, query, request.body)));
            let response = handler(route, query, request.body);
            response
        },
        None => HttpResponse::not_found(),
    }
}

impl<'a, H> WebApi<'a, H> {
    /// The address to listen on.
    pub closed spec fn spec_addr(&self) -> Seq<char> {
        self.addr@
    }

    /// The number of workers.
    pub closed spec fn spec_threads_num(&self) -> usize {
        self.threads_num
    }

    /// The routes.
    pub closed spec fn spec_endpoints(&self) -> Endpoints<H> {
        self.endpoints
    }

    /// There is at least one worker, and the tables are well formed.
    pub open spec fn well_formed(&self) -> bool {
        &&& self.spec_threads_num() >= 1
        &&& self.spec_endpoints().well_formed()
    }

    /// A server for `addr` with `threads_num` workers and no route. There
    /// must be at least one worker.
    pub fn new(addr: &'a str, threads_num: usize) -> (api: WebApi<'a, H>)
        requires
            threads_num >= 1,
        ensures
            api.well_formed(),
            api.spec_addr() == addr@,
            api.spec_threads_num() == threads_num,
            forall|method: HttpMethod| #[trigger]
                api.spec_endpoints().table(method).patterns() == Seq::<Seq<char>>::empty(),
    {
        WebApi { addr, threads_num, endpoints: Endpoints::new() }
    }

    /// The address to listen on.
    pub fn addr(&self) -> (addr: &'a str)
        ensures
            addr@ == self.spec_addr(),
    {
        self.addr
    }

    /// The number of workers.
    pub fn threads_num(&self) -> (n: usize)
        ensures
            n == self.spec_threads_num(),
    {
        self.threads_num
    }

    /// The routes.
    pub fn endpoints(&self) -> (endpoints: &Endpoints<H>)
        ensures
            *endpoints == self.spec_endpoints(),
    {
        &self.endpoints
    }

    /// Registers, under `Get`, the handler that `get_handler_info` gives for
    /// the route that it gives.
    pub fn get<Handler>(self, get_handler_info: Handler) -> (api: Self) where
        Handler: Fn() -> HttpHandlerInfo<H>,

        requires
            self.well_formed(),
            call_requires(get_handler_info, ()),
        ensures
            api.spec_addr() == self.spec_addr(),
            api.spec_threads_num() == self.spec_threads_num(),
            exists|info: HttpHandlerInfo<H>|
                call_ensures(get_handler_info, (), info) && registered(
                    self.spec_endpoints(),
                    api.spec_endpoints(),
                    HttpMethod::Get,
                    info.route@,
                    info.handler,
                ),
    {
        let mut api = self;
        let handler_info = get_handler_info();
        let ghost info = handler_info;
        api.endpoints.get_endpoints.insert(handler_info.route, handler_info.handler);
        assert(registered(
            self.spec_endpoints(),
            api.spec_endpoints(),
            HttpMethod::Get,
            info.route@,
            info.handler,
        ));
        api
    }

    /// Registers, under `Post`, the handler that `get_handler_info` gives for
    /// the route that it gives.
    pub fn post<Handler>(self, get_handler_info: Handler) -> (api: Self) where
        Handler: Fn() -> HttpHandlerInfo<H>,

        requires
            self.well_formed(),
            call_requires(get_handler_info, ()),
        ensures
            api.spec_addr() == self.spec_addr(),
            api.spec_threads_num() == self.spec_threads_num(),
            exists|info: HttpHandlerInfo<H>|
                call_ensures(get_handler_info, (), info) && registered(
                    self.spec_endpoints(),
                    api.spec_endpoints(),
                    HttpMethod::Post,
                    info.route@,
                    info.handler,
                ),
    {
        let mut api = self;
        let handler_info = get_handler_info();
        let ghost info = handler_info;
        api.endpoints.post_endpoints.insert(handler_info.route, handler_info.handler);
        assert(registered(
            self.spec_endpoints(),
            api.spec_endpoints(),
            HttpMethod::Post,
            info.route@,
            info.handler,
        ));
        api
    }

    /// Registers, under `Delete`, the handler that `get_handler_info` gives for
    /// the route that it gives.
    pub fn delete<Handler>(self, get_handler_info: Handler) -> (api: Self) where
        Handler: Fn() -> HttpHandlerInfo<H>,

        requires
            self.well_formed(),
            call_requires(get_handler_info, ()),
        ensures
            api.spec_addr() == self.spec_addr(),
            api.spec_threads_num() == self.spec_threads_num(),
            exists|info: HttpHandlerInfo<H>|
                call_ensures(get_handler_info, (), info) && registered(
                    self.spec_endpoints(),
                    api.spec_endpoints(),
                    HttpMethod::Delete,
                    info.route@,
                    info.handler,
                ),
    {
        let mut api = self;
        let handler_info = get_handler_info();
        let ghost info = handler_info;
        api.endpoints.delete_endpoints.insert(handler_info.route, handler_info.handler);
        assert(registered(
            self.spec_endpoints(),
            api.spec_endpoints(),
            HttpMethod::Delete,
            info.route@,
            info.handler,
        ));
        api
    }

    /// Registers, under `Put`, the handler that `get_handler_info` gives for
    /// the route that it gives.
    pub fn put<Handler>(self, get_handler_info: Handler) -> (api: Self) where
        Handler: Fn() -> HttpHandlerInfo<H>,

        requires
            self.well_formed(),
            call_requires(get_handler_info, ()),
        ensures
            api.spec_addr() == self.spec_addr(),
            api.spec_threads_num() == self.spec_threads_num(),
            exists|info: HttpHandlerInfo<H>|
                call_ensures(get_handler_info, (), info) && registered(
                    self.spec_endpoints(),
                    api.spec_endpoints(),
                    HttpMethod::Put,
                    info.route@,
                    info.handler,
                ),
    {
        let mut api = self;
        let handler_info = get_handler_info();
        let ghost info = handler_info;
        api.endpoints.put_endpoints.insert(handler_info.route, handler_info.handler);
        assert(registered(
            self.spec_endpoints(),
            api.spec_endpoints(),
            HttpMethod::Put,
            info.route@,
            info.handler,
        ));
        api
    }

    /// The answer to what was read off a connection: to a request, the
    /// answer of the handler which its method and URI are routed to, or a
    /// not-found status; to a failed read, a bodiless bad-request status,
    /// with no handler called.
    pub fn answer(&self, parsed: Option<HttpRequest>) -> (response: HttpResponse) where
        H: Fn(Route, Query, Option<String>) -> HttpResponse,

        requires
            self.well_formed(),
            forall|method: HttpMethod| #[trigger]
                accepts_all(self.spec_endpoints().table(method).handlers()),
        ensures
            match parsed {
                Some(request) => answers(
                    self.spec_endpoints().table(request.method),
                    request,
                    response,
                ),
                None => response.status == HttpStatus::BadRequest && response.body.is_none(),
            },
    {
        match parsed {
            Some(request) => {
                assert(accepts_all(self.spec_endpoints().table(request.method).handlers()));
                self.respond(request)
            },
            None => HttpResponse::bad_request(),
        }
    }

    /// The answer to a parsed request: that of the handler which the
    /// request's method and URI are routed to, or a not-found status.
    pub fn respond(&self, request: HttpRequest) -> (response: HttpResponse) where
        H: Fn(Route, Query, Option<String>) -> HttpResponse,

        requires
            self.well_formed(),
            accepts_all(self.spec_endpoints().table(request.method).handlers()),
        ensures
            answers(self.spec_endpoints().table(request.method), request, response),
    {
        let table = get_endpoints_map(&request.method, &self.endpoints);
        handle_request(request, table)
    }
}

} // verus!
