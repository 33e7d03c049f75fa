//! Plain-value request and response messages: the shapes the routing core
//! reads and produces. The (out-of-scope) listener converts these to and from
//! wire-level messages.

use vstd::prelude::*;

use crate::params::Params;

verus! {

/// The header mapping of a request or response; inserting an existing name
/// replaces its value.
pub type Headers = Params;

/// An HTTP request method.
#[derive(Clone, Copy, Debug, PartialEq, Eq, Structural)]
pub enum Method {
    Get,
    Post,
    Put,
    Delete,
    Patch,
    Head,
    Options,
    Trace,
    Connect,
}

/// The canonical wire name of a request method.
pub open spec fn method_name(m: Method) -> Seq<char> {
    match m {
        Method::Get => "GET"@,
        Method::Post => "POST"@,
        Method::Put => "PUT"@,
        Method::Delete => "DELETE"@,
        Method::Patch => "PATCH"@,
        Method::Head => "HEAD"@,
        Method::Options => "OPTIONS"@,
        Method::Trace => "TRACE"@,
        Method::Connect => "CONNECT"@,
    }
}

impl Method {
    /// The method's canonical wire name.
    pub fn name(&self) -> (r: &'static str)
        ensures
            r@ == method_name(*self),
    {
        match self {
            Method::Get => "GET",
            Method::Post => "POST",
            Method::Put => "PUT",
            Method::Delete => "DELETE",
            Method::Patch => "PATCH",
            Method::Head => "HEAD",
            Method::Options => "OPTIONS",
            Method::Trace => "TRACE",
            Method::Connect => "CONNECT",
        }
    }
}

/// An incoming HTTP request: method, URI path, headers and body.
#[derive(Clone, Debug)]
pub struct Request {
    pub method: Method,
    pub path: String,
    pub headers: Headers,
    pub body: Vec<u8>,
}

impl Request {
    /// Construct a request for a method and path, with no headers and an
    /// empty body.
    pub fn new(method: Method, path: String) -> (r: Self)
        ensures
            r.method == method,
            r.path@ == path@,
            r.headers@ == Map::<Seq<char>, Seq<char>>::empty(),
            r.body@ == Seq::<u8>::empty(),
    {
        Request { method, path, headers: Params::new(), body: Vec::new() }
    }
}

impl Default for Request {
    /// A GET request for the root path.
    fn default() -> (r: Self)
        ensures
            r.method == Method::Get,
            r.path@ == "/"@,
            r.headers@ == Map::<Seq<char>, Seq<char>>::empty(),
            r.body@ == Seq::<u8>::empty(),
    {
        Request {
            method: Method::Get,
            path: "/".to_owned(),
            headers: Params::new(),
            body: Vec::new(),
        }
    }
}

/// An outgoing HTTP response: status code, headers and body.
#[derive(Clone, Debug)]
pub struct Response {
    pub status: u16,
    pub headers: Headers,
    pub body: Vec<u8>,
}

impl Response {
    /// Construct a response with a status code, no headers and an empty body.
    pub fn new(status: u16) -> (r: Self)
        ensures
            r.status == status,
            r.headers@ == Map::<Seq<char>, Seq<char>>::empty(),
            r.body@ == Seq::<u8>::empty(),
    {
        Response { status, headers: Params::new(), body: Vec::new() }
    }

    /// Construct a response with a status code and a body.
    pub fn with_body(status: u16, body: Vec<u8>) -> (r: Self)
        ensures
            r.status == status,
            r.headers@ == Map::<Seq<char>, Seq<char>>::empty(),
            r.body@ == body@,
    {
        Response { status, headers: Params::new(), body }
    }
}

} // verus!
