//! HTTP dispatch.
//!
//! A request is matched against the route table; a path that no pattern
//! matches, or a method that the matching route does not bind, is not found.
//! The request's context is then put together: path parameters, query
//! parameters, headers, and the body where the handler asked for it. The
//! handler's answer becomes the response; a rejection becomes the one
//! server-error response, whatever its message.
//!
//! A handler bound to GET never has the body read for it, whatever its
//! configuration says. The other methods go by the configuration.

use vstd::prelude::*;

use crate::ext::route::{match_pattern, matched, matches_pattern, parse_query, path_of, query_of, query_pairs, split_target};
use crate::header::{entries_of, header_entries};
use crate::pairs::pairs_view;
use crate::promise::PromiseResult;
use crate::response::{is_server_error, made_of, server_error, Body, HandlerRes, Response, ResponseError};
use crate::text::{find, lemma_find_is, same_text};
use crate::{Context, Handler, HandlerReq, Handlers, Method, Server};

verus! {

/// Why a request context could not be put together.
#[derive(Debug, Clone, Copy, PartialEq, Eq, Structural)]
pub enum RequestError {
    /// A header value is not text: it holds something other than tabs and
    /// visible ASCII characters.
    NonTextHeader,
}

/// Why a request was not routed. Either way the request is answered as not
/// found.
#[derive(Debug, Clone, Copy, PartialEq, Eq, Structural)]
pub enum RouteError {
    /// No pattern matches the path.
    NoPattern,
    /// The first pattern that matches binds no handler to the method.
    NoBinding,
}

/// Why a route configuration was refused.
#[derive(Debug, Clone, Copy, PartialEq, Eq, Structural)]
pub enum ConfigError {
    /// A route binds a method to the null handle.
    NullHandler,
}

/// The status with which a request that was not routed is answered.
pub const NOT_FOUND_STATUS: u16 = 404;

/// A routed request: the handler to invoke, whether to read the body first,
/// and what the target says of the request's context.
#[derive(Debug, PartialEq, Eq)]
pub struct Routed {
    pub handler: usize,
    pub read_body: bool,
    pub params: Vec<(String, String)>,
    pub query: Vec<(String, String)>,
    pub pathname: String,
}

/// The route table: a route configuration in which no method is bound to the
/// null handle. It does not change once it is made.
#[derive(Debug)]
pub struct Router {
    routes: Vec<(String, Handlers)>,
}

/// The handler that a route binds to a method.
pub open spec fn binding(handlers: Handlers, method: Method) -> Option<Handler> {
    match method {
        Method::Get => handlers.get,
        Method::Post => handlers.post,
        Method::Put => handlers.put,
        Method::Delete => handlers.delete,
        Method::Patch => handlers.patch,
        Method::Options => handlers.options,
        Method::Trace => handlers.trace,
        Method::Head => handlers.head,
    }
}

/// The method that a request line names. Names are taken as they are
/// written: in capitals.
pub open spec fn method_named(name: Seq<char>) -> Option<Method> {
    if name == "GET"@ {
        Some(Method::Get)
    } else if name == "POST"@ {
        Some(Method::Post)
    } else if name == "PUT"@ {
        Some(Method::Put)
    } else if name == "DELETE"@ {
        Some(Method::Delete)
    } else if name == "PATCH"@ {
        Some(Method::Patch)
    } else if name == "OPTIONS"@ {
        Some(Method::Options)
    } else if name == "TRACE"@ {
        Some(Method::Trace)
    } else if name == "HEAD"@ {
        Some(Method::Head)
    } else {
        None
    }
}

/// Whether the body is read before the handler is invoked: never for GET,
/// and as the handler's configuration says for every other method.
pub open spec fn reads_body(method: Method, handler: Handler) -> bool {
    method != Method::Get && handler.body
}

/// A binding to the null handle.
pub open spec fn is_null(bound: Option<Handler>) -> bool {
    bound matches Some(handler) && handler.pointer == 0
}

/// Whether a route binds some method to the null handle.
pub open spec fn binds_null(handlers: Handlers) -> bool {
    ||| is_null(handlers.get)
    ||| is_null(handlers.post)
    ||| is_null(handlers.put)
    ||| is_null(handlers.delete)
    ||| is_null(handlers.patch)
    ||| is_null(handlers.options)
    ||| is_null(handlers.trace)
    ||| is_null(handlers.head)
}

/// The routes of a configuration as plain values.
pub open spec fn routes_view(routes: Seq<(String, Handlers)>) -> Seq<(Seq<char>, Handlers)> {
    routes.map_values(|route: (String, Handlers)| (route.0@, route.1))
}

/// Whether some route of a configuration binds a method to the null handle.
pub open spec fn misconfigured(routes: Seq<(Seq<char>, Handlers)>) -> bool {
    exists|i: int| 0 <= i < routes.len() && binds_null((#[trigger] routes[i]).1)
}

/// The place of the first route whose pattern matches `path`; the number of
/// routes where none does.
pub open spec fn first_match(routes: Seq<(Seq<char>, Handlers)>, path: Seq<char>) -> nat {
    find(routes.map_values(|route: (Seq<char>, Handlers)| matches_pattern(route.0, path)), true)
}

/// Where a request goes.
pub open spec fn routed(routes: Seq<(Seq<char>, Handlers)>, method: Method, target: Seq<char>, r: Result<
    Routed,
    RouteError,
>) -> bool {
    let path = path_of(target);
    let i = first_match(routes, path) as int;
    if i >= routes.len() {
        r == Err::<Routed, RouteError>(RouteError::NoPattern)
    } else {
        match binding(routes[i].1, method) {
            None => r == Err::<Routed, RouteError>(RouteError::NoBinding),
            Some(handler) => {
                &&& r matches Ok(to)
                &&& to.handler == handler.pointer
                &&& to.read_body == reads_body(method, handler)
                &&& Some(pairs_view(to.params@)) == matched(routes[i].0, path)
                &&& pairs_view(to.query@) == query_pairs(query_of(target))
                &&& to.pathname@ == path
            },
        }
    }
}

/// Whether every header value of a map is text.
pub open spec fn all_text(entries: Seq<(Seq<char>, Option<Seq<char>>)>) -> bool {
    forall|i: int| 0 <= i < entries.len() ==> (#[trigger] entries[i]).1 is Some
}

/// The headers of a map whose values are all text, as pairs of name and
/// value.
pub open spec fn texts(entries: Seq<(Seq<char>, Option<Seq<char>>)>) -> Seq<(Seq<char>, Seq<char>)> {
    entries.map_values(|entry: (Seq<char>, Option<Seq<char>>)| (entry.0, entry.1->0))
}

/// The context of a routed request with these headers and this body: the
/// body only where it is to be read.
pub open spec fn context_of(
    to: Routed,
    raw_body: Option<Vec<u8>>,
    entries: Seq<(Seq<char>, Option<Seq<char>>)>,
) -> Context {
    Context {
        query: pairs_view(to.query@),
        headers: texts(entries),
        body: match raw_body {
            Some(bytes) if to.read_body => Some(bytes@),
            _ => None,
        },
        params: pairs_view(to.params@),
        pathname: to.pathname@,
    }
}

impl Method {
    /// The method with this name, if it is one that a route can bind.
    pub fn from_name(name: &str) -> (r: Option<Method>)
        ensures
            r == method_named(name@),
    {
        if same_text(name, "GET") {
            Some(Method::Get)
        } else if same_text(name, "POST") {
            Some(Method::Post)
        } else if same_text(name, "PUT") {
            Some(Method::Put)
        } else if same_text(name, "DELETE") {
            Some(Method::Delete)
        } else if same_text(name, "PATCH") {
            Some(Method::Patch)
        } else if same_text(name, "OPTIONS") {
            Some(Method::Options)
        } else if same_text(name, "TRACE") {
            Some(Method::Trace)
        } else if same_text(name, "HEAD") {
            Some(Method::Head)
        } else {
            None
        }
    }
}

impl Handlers {
    /// The handler bound to `method`, if any.
    pub fn bound(&self, method: Method) -> (r: Option<Handler>)
        ensures
            r == binding(*self, method),
    {
        match method {
            Method::Get => self.get,
            Method::Post => self.post,
            Method::Put => self.put,
            Method::Delete => self.delete,
            Method::Patch => self.patch,
            Method::Options => self.options,
            Method::Trace => self.trace,
            Method::Head => self.head,
        }
    }

    /// Whether some method is bound to the null handle.
    pub fn has_null(&self) -> (r: bool)
        ensures
            r == binds_null(*self),
    {
        null_bound(self.get) || null_bound(self.post) || null_bound(self.put) || null_bound(self.delete)
            || null_bound(self.patch) || null_bound(self.options) || null_bound(self.trace) || null_bound(
            self.head,
        )
    }
}

/// Whether a binding is one to the null handle.
pub fn null_bound(bound: Option<Handler>) -> (r: bool)
    ensures
        r == is_null(bound),
{
    match bound {
        Some(handler) => handler.pointer == 0,
        None => false,
    }
}

/// Whether the body is read for a handler bound to `method`.
pub fn body_policy(method: Method, handler: Handler) -> (r: bool)
    ensures
        r == reads_body(method, handler),
{
    match method {
        Method::Get => false,
        _ => handler.body,
    }
}

impl View for Router {
    type V = Seq<(Seq<char>, Handlers)>;

    closed spec fn view(&self) -> Seq<(Seq<char>, Handlers)> {
        routes_view(self.routes@)
    }
}

impl Server {
    /// Builds the route table, once, at startup. A configuration that binds
    /// a method to the null handle is refused here, so that no request ever
    /// meets it.
    pub fn into_router(self) -> (r: Result<Router, ConfigError>)
        ensures
            match r {
                Ok(router) => !misconfigured(routes_view(self.routes@)) && router@ == routes_view(self.routes@),
                Err(e) => misconfigured(routes_view(self.routes@)) && e == ConfigError::NullHandler,
            },
    {
        let ghost table = routes_view(self.routes@);
        let mut i: usize = 0;
        while i < self.routes.len()
            invariant
                i <= self.routes@.len(),
                table == routes_view(self.routes@),
                forall|j: int| 0 <= j < i ==> !binds_null((#[trigger] table[j]).1),
            decreases self.routes.len() - i,
        {
            if self.routes[i].1.has_null() {
                assert(binds_null(table[i as int].1));
                return Err(ConfigError::NullHandler);
            }
            i += 1;
        }
        Ok(Router { routes: self.routes })
    }
}

impl Router {
    #[verifier::type_invariant]
    spec fn no_null_handler(&self) -> bool {
        !misconfigured(routes_view(self.routes@))
    }

    /// The number of routes.
    pub fn len(&self) -> (n: usize)
        ensures
            n == self@.len(),
    {
        self.routes.len()
    }

    /// Routes a request: the first pattern that matches the target's path
    /// decides, and its binding for the method names the handler. The
    /// handler of a routed request is never the null handle.
    pub fn route(&self, method: Method, target: &str) -> (r: Result<Routed, RouteError>)
        ensures
            routed(self@, method, target@, r),
            r matches Ok(to) ==> to.handler != 0,
            !misconfigured(self@),
    {
        proof {
            use_type_invariant(self);
        }
        let (pathname, query) = split_target(target);
        let ghost table = routes_view(self.routes@);
        let ghost path = path_of(target@);
        let ghost hits = table.map_values(|route: (Seq<char>, Handlers)| matches_pattern(route.0, path));
        let mut i: usize = 0;
        while i < self.routes.len()
            invariant
                i <= self.routes@.len(),
                table == routes_view(self.routes@),
                !misconfigured(table),
                path == path_of(target@),
                pathname@ == path,
                query@ == query_of(target@),
                hits == table.map_values(|route: (Seq<char>, Handlers)| matches_pattern(route.0, path)),
                forall|j: int| 0 <= j < i ==> !(#[trigger] hits[j]),
            decreases self.routes.len() - i,
        {
            match match_pattern(self.routes[i].0.as_str(), pathname.as_str()) {
                None => {
                    assert(!hits[i as int]);
                },
                Some(params) => {
                    proof {
                        assert(hits[i as int]);
                        lemma_find_is(hits, true, i as int);
                        assert(table[i as int].1 == self.routes@[i as int].1);
                    }
                    return match self.routes[i].1.bound(method) {
                        None => Err(RouteError::NoBinding),
                        Some(handler) => {
                            proof {
                                assert(!binds_null(table[i as int].1));
                            }
                            Ok(
                                Routed {
                                    handler: handler.pointer,
                                    read_body: body_policy(method, handler),
                                    params,
                                    query: parse_query(query.as_str()),
                                    pathname,
                                },
                            )
                        },
                    };
                },
            }
            i += 1;
        }
        proof {
            lemma_find_is(hits, true, hits.len() as int);
        }
        Err(RouteError::NoPattern)
    }
}

/// Puts the body into the context.
pub fn handle_body(req: &mut HandlerReq, raw_body: Vec<u8>)
    ensures
        final(req)@ == (Context { body: Some(raw_body@), ..old(req)@ }),
{
    req.body = Some(raw_body);
}

/// Puts the path parameters into the context.
pub fn handle_params(req: &mut HandlerReq, params: Vec<(String, String)>)
    ensures
        final(req)@ == (Context { params: pairs_view(params@), ..old(req)@ }),
{
    req.params = params;
}

/// Puts the query parameters into the context.
pub fn handle_query(req: &mut HandlerReq, query: Vec<(String, String)>)
    ensures
        final(req)@ == (Context { query: pairs_view(query@), ..old(req)@ }),
{
    req.query = query;
}

/// Puts the headers into the context, flattened: one pair for each value,
/// in the map's order, so that a name with several values stands several
/// times. A value that is not text is an error, and the context stays as it
/// was.
pub fn handle_headers(req: &mut HandlerReq, headers: &hyper::HeaderMap<hyper::header::HeaderValue>) -> (r:
    Result<(), RequestError>)
    ensures
        match r {
            Ok(_) => all_text(header_entries(*headers)) && final(req)@ == (Context {
                headers: texts(header_entries(*headers)),
                ..old(req)@
            }),
            Err(e) => !all_text(header_entries(*headers)) && final(req)@ == old(req)@ && e
                == RequestError::NonTextHeader,
        },
{
    let entries = entries_of(headers);
    let ghost shown = header_entries(*headers);
    let ghost before = entries@;
    assert(shown.len() == before.len());
    let mut flat: Vec<(String, String)> = Vec::new();
    proof {
        assert(pairs_view(flat@) =~= texts(shown.take(0)));
    }
    for entry in it: entries
        invariant
            it.seq() == before,
            *req == *old(req),
            shown == header_entries(*headers),
            shown == before.map_values(|e: (String, Option<String>)| e.deep_view()),
            all_text(shown.take(it.index() as int)),
            pairs_view(flat@) == texts(shown.take(it.index() as int)),
    {
        let ghost i = it.index() as int;
        let ghost seen = shown.take(i);
        proof {
            assert(shown[i] == entry.deep_view());
            assert(shown.take(i + 1) =~= seen.push(shown[i]));
        }
        let ghost flat_before = pairs_view(flat@);
        let (name, value) = entry;
        match value {
            Some(text) => {
                proof {
                    assert(shown[i].0 == name.deep_view());
                    assert(shown[i].1 == value.deep_view());
                    assert(shown[i] == (name@, Some(text@)));
                }
                flat.push((name, text));
                proof {
                    assert(pairs_view(flat@) =~= flat_before.push((name@, text@)));
                    assert(texts(shown.take(i + 1)) =~= texts(seen).push((name@, text@)));
                    assert forall|j: int| 0 <= j < i + 1 implies (#[trigger] shown.take(i + 1)[j]).1 is Some by {
                        if j < i {
                            assert(shown.take(i + 1)[j] == seen[j]);
                        }
                    }
                }
            },
            None => {
                assert(shown[i].1 == value.deep_view());
                assert(shown[i].1 is None);
                return Err(RequestError::NonTextHeader);
            },
        }
    }
    proof {
        assert(shown.take(shown.len() as int) =~= shown);
    }
    req.headers = flat;
    Ok(())
}

/// Puts the context of a routed request together: parameters, query and
/// path from the routing, the headers, and the body where it is to be read.
pub fn handle_req(to: Routed, raw_body: Option<Vec<u8>>, headers: &hyper::HeaderMap<hyper::header::HeaderValue>) -> (r:
    Result<HandlerReq, RequestError>)
    ensures
        match r {
            Ok(req) => all_text(header_entries(*headers)) && req@ == context_of(
                to,
                raw_body,
                header_entries(*headers),
            ),
            Err(e) => !all_text(header_entries(*headers)) && e == RequestError::NonTextHeader,
        },
{
    let mut req = HandlerReq::default();
    if to.read_body {
        match raw_body {
            Some(bytes) => {
                handle_body(&mut req, bytes);
            },
            None => {},
        }
    }
    handle_params(&mut req, to.params);
    handle_query(&mut req, to.query);
    match handle_headers(&mut req, headers) {
        Ok(_) => {},
        Err(e) => {
            return Err(e);
        },
    }
    req.pathname = to.pathname;
    Ok(req)
}

/// The response to a request that was not routed: status 404, no headers,
/// no body.
pub fn not_found<W>() -> (response: Response<W>)
    ensures
        response.status == NOT_FOUND_STATUS,
        response.headers@.len() == 0,
        response.body matches Body::Bytes(bytes) && bytes@.len() == 0,
{
    Response { status: NOT_FOUND_STATUS, headers: Vec::new(), body: Body::Bytes(Vec::new()) }
}

/// Makes the response of what the handler's bridge resolved to: the
/// handler's answer as `into_response` makes it, and for a rejection the
/// server-error response. Nothing of a rejection's message goes into the
/// response.
pub fn respond<W>(result: PromiseResult<HandlerRes>) -> (r: Result<Response<W>, ResponseError>)
    ensures
        match result {
            PromiseResult::Fulfilled(res) => made_of(res, r),
            PromiseResult::Rejected(_) => r matches Ok(response) && is_server_error(response),
        },
{
    match result {
        PromiseResult::Fulfilled(res) => res.into_response(),
        PromiseResult::Rejected(_) => Ok(server_error()),
    }
}

} // verus!
