//! Bridges request handlers that live in a poll-only foreign runtime to a
//! task model with wakeups: the wire codec, the promise bridge, its repoll
//! scheduler, the stream adapter, and the HTTP dispatch rules.
//!
//! The foreign runtime is only ever reached through handles: a handler, a
//! poll callable and a read callable are each a number that the embedding
//! program knows how to invoke.

#![allow(unused_imports)]

use vstd::prelude::*;

pub mod ext;
pub mod header;
pub mod json;
pub mod pairs;
pub mod promise;
pub mod readable_stream;
pub mod response;
pub mod text;

use crate::pairs::pairs_view;

verus! {

/// The context of one request, as the handler gets it.
#[derive(Debug, PartialEq, Eq)]
pub struct HandlerReq {
    /// Query parameters; a key occurs once.
    pub query: Vec<(String, String)>,
    /// Headers in order; a name that came twice stands twice.
    pub headers: Vec<(String, String)>,
    /// The body, where the handler asked for it.
    pub body: Option<Vec<u8>>,
    /// Path parameters; a key occurs once.
    pub params: Vec<(String, String)>,
    /// The path of the request, without the query.
    pub pathname: String,
}

/// A request context as plain values: what a `HandlerReq` holds.
pub struct Context {
    pub query: Seq<(Seq<char>, Seq<char>)>,
    pub headers: Seq<(Seq<char>, Seq<char>)>,
    pub body: Option<Seq<u8>>,
    pub params: Seq<(Seq<char>, Seq<char>)>,
    pub pathname: Seq<char>,
}

impl View for HandlerReq {
    type V = Context;

    open spec fn view(&self) -> Context {
        Context {
            query: pairs_view(self.query@),
            headers: pairs_view(self.headers@),
            body: match self.body {
                Some(bytes) => Some(bytes@),
                None => None,
            },
            params: pairs_view(self.params@),
            pathname: self.pathname@,
        }
    }
}

/// The context of a request of which nothing is known yet.
pub open spec fn empty_context() -> Context {
    Context {
        query: Seq::empty(),
        headers: Seq::empty(),
        body: None,
        params: Seq::empty(),
        pathname: Seq::empty(),
    }
}

impl Default for HandlerReq {
    fn default() -> (req: Self)
        ensures
            req@ == empty_context(),
    {
        let req = HandlerReq {
            query: Vec::new(),
            headers: Vec::new(),
            body: None,
            params: Vec::new(),
            pathname: String::new(),
        };
        assert(req@.query =~= Seq::empty());
        assert(req@.headers =~= Seq::empty());
        assert(req@.params =~= Seq::empty());
        req
    }
}

/// The methods that a route can bind.
#[derive(Debug, Clone, Copy, PartialEq, Eq, Structural)]
pub enum Method {
    Get,
    Post,
    Put,
    Delete,
    Patch,
    Options,
    Trace,
    Head,
}

/// A handler bound to a method of a route: its handle, and whether the
/// request body is to be read before it is invoked.
#[derive(Debug, Clone, Copy, PartialEq, Eq, Structural)]
pub struct Handler {
    pub pointer: usize,
    pub body: bool,
}

/// The handlers of one route, by method.
#[derive(Debug, Clone, Copy, PartialEq, Eq)]
pub struct Handlers {
    pub get: Option<Handler>,
    pub post: Option<Handler>,
    pub delete: Option<Handler>,
    pub put: Option<Handler>,
    pub options: Option<Handler>,
    pub trace: Option<Handler>,
    pub patch: Option<Handler>,
    pub head: Option<Handler>,
}

impl Default for Handlers {
    /// A route that binds no method.
    fn default() -> (handlers: Self)
        ensures
            handlers == (Handlers {
                get: None,
                post: None,
                delete: None,
                put: None,
                options: None,
                trace: None,
                patch: None,
                head: None,
            }),
    {
        Handlers {
            get: None,
            post: None,
            delete: None,
            put: None,
            options: None,
            trace: None,
            patch: None,
            head: None,
        }
    }
}

/// The route configuration: each path pattern with its handlers. Where two
/// patterns match a path, the one that stands first decides.
#[derive(Debug, PartialEq, Eq)]
pub struct Server {
    pub routes: Vec<(String, Handlers)>,
}

} // verus!
