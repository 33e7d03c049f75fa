//! Application-level management and routing configuration: route
//! registration, the optional process-wide shared state, and the top-level
//! dispatch entry point that maps every error to a concrete response.

use vstd::prelude::*;

use crate::handler::{chain_seq, Handler};
use crate::message::{Headers, Method, Request, Response};
use crate::params::Params;
use crate::path::compile;
use crate::router::{router_outcome, router_total, Route, Router};
use crate::state::{AppHandle, SharedState};
use crate::{Error, HTTPResult, TransientState};

verus! {

/// The HTTP status an error maps to at the application boundary.
pub open spec fn status_of_error(e: Error) -> u16 {
    match e {
        Error::StatusCode(s, _) => s,
        Error::InternalServerError(_) => 500u16,
    }
}

/// The message an error carries to the response body.
pub open spec fn message_of_error(e: Error) -> Seq<char> {
    match e {
        Error::StatusCode(_, m) => m@,
        Error::InternalServerError(m) => m@,
    }
}

/// App defines application-level functionality: routes are registered
/// here, and the (out-of-scope) listener drives [`App::dispatch`].
///
/// Routes take a path pattern: patterns should start with `/`, and dynamic
/// segments start with `:`. `/a/b/c` matches one shape of path, while
/// `/a/:b/c` matches any path `/a/<segment>/c` and hands the segment to
/// handlers through the parameter mapping.
#[verifier::reject_recursive_types(S)]
pub struct App<S, F> {
    router: Router<F>,
    global_state: Option<SharedState<S>>,
}

impl<S, F> App<S, F> {
    /// The registered route table, in registration order.
    pub closed spec fn routes(&self) -> Seq<Route<F>> {
        self.router.routes()
    }

    /// The handle handed to the router and on to handlers.
    pub closed spec fn handle_of(&self) -> AppHandle<S> {
        AppHandle { global_state: self.global_state }
    }

    /// Every shared-state handle the application hands out is usable.
    pub open spec fn wf(&self) -> bool {
        self.handle_of().wf()
    }

    /// Construct an App with no shared state.
    pub fn new() -> (r: Self)
        ensures
            r.routes() == Seq::<Route<F>>::empty(),
            r.handle_of().global_state is None,
            r.wf(),
    {
        App { router: Router::new(), global_state: None }
    }

    /// Construct an App whose shared-state slot holds `state`, reachable
    /// thereafter only through the lock-guarded handle.
    pub fn with_state(state: S) -> (r: Self)
        ensures
            r.routes() == Seq::<Route<F>>::empty(),
            r.handle_of().global_state is Some,
            r.wf(),
    {
        App { router: Router::new(), global_state: Some(SharedState::new(state)) }
    }

    /// A clone of the shared-state handle, or nothing if no state was
    /// configured; acquire the lock before reading or mutating the value,
    /// and release it as soon as possible.
    pub fn state(&self) -> (r: Option<SharedState<S>>)
        ensures
            match r {
                None => self.handle_of().global_state is None,
                Some(s) => self.handle_of().global_state matches Some(o) && s == o,
            },
    {
        match &self.global_state {
            None => None,
            Some(s) => Some(s.handle()),
        }
    }

    /// Create a route for a GET request.
    pub fn get(&mut self, path: &str, ch: Handler<F>)
        ensures
            registered(old(self), final(self), Method::Get, path@, ch),
    {
        self.router.add(Method::Get, path.to_owned(), ch);
    }

    /// Create a route for a POST request.
    pub fn post(&mut self, path: &str, ch: Handler<F>)
        ensures
            registered(old(self), final(self), Method::Post, path@, ch),
    {
        self.router.add(Method::Post, path.to_owned(), ch);
    }

    /// Create a route for a DELETE request.
    pub fn delete(&mut self, path: &str, ch: Handler<F>)
        ensures
            registered(old(self), final(self), Method::Delete, path@, ch),
    {
        self.router.add(Method::Delete, path.to_owned(), ch);
    }

    /// Create a route for a PUT request.
    pub fn put(&mut self, path: &str, ch: Handler<F>)
        ensures
            registered(old(self), final(self), Method::Put, path@, ch),
    {
        self.router.add(Method::Put, path.to_owned(), ch);
    }

    /// Create a route for an OPTIONS request.
    pub fn options(&mut self, path: &str, ch: Handler<F>)
        ensures
            registered(old(self), final(self), Method::Options, path@, ch),
    {
        self.router.add(Method::Options, path.to_owned(), ch);
    }

    /// Create a route for a PATCH request.
    pub fn patch(&mut self, path: &str, ch: Handler<F>)
        ensures
            registered(old(self), final(self), Method::Patch, path@, ch),
    {
        self.router.add(Method::Patch, path.to_owned(), ch);
    }

    /// Create a route for a HEAD request.
    pub fn head(&mut self, path: &str, ch: Handler<F>)
        ensures
            registered(old(self), final(self), Method::Head, path@, ch),
    {
        self.router.add(Method::Head, path.to_owned(), ch);
    }

    /// Create a route for a CONNECT request.
    pub fn connect(&mut self, path: &str, ch: Handler<F>)
        ensures
            registered(old(self), final(self), Method::Connect, path@, ch),
    {
        self.router.add(Method::Connect, path.to_owned(), ch);
    }

    /// Create a route for a TRACE request.
    pub fn trace(&mut self, path: &str, ch: Handler<F>)
        ensures
            registered(old(self), final(self), Method::Trace, path@, ch),
    {
        self.router.add(Method::Trace, path.to_owned(), ch);
    }

    /// Dispatch a request: route it, run the matched chain, and map any
    /// error to a concrete response — a status-code error becomes that
    /// status with the error's message as body, any other error becomes
    /// HTTP 500 with its message as body. This mapping never fails: every
    /// dispatch yields a response.
    pub fn dispatch<T: TransientState>(&self, req: Request) -> (r: Response) where F: Fn(
        Request,
        Option<Response>,
        Params,
        AppHandle<S>,
        T,
    ) -> HTTPResult<T>
        requires
            router_total::<S, T, F>(self.routes(), self.handle_of()),
        ensures
            app_response::<S, T, F>(self.routes(), req, self.handle_of(), r),
    {
        let handle = AppHandle {
            global_state: (
            match &self.global_state {
                None => None,
                Some(s) => Some(s.handle()),
            }),
        };
        proof {
            assert(handle == self.handle_of());
        }
        match self.router.dispatch(req, handle) {
            Ok(resp) => {
                proof {
                    assert(mapped_response(Ok::<Response, Error>(resp), resp));
                }
                resp
            },
            Err(e) => {
                let (status, msg) = match e {
                    Error::StatusCode(sc, msg) => (sc, msg),
                    Error::InternalServerError(msg) => (500u16, msg),
                };
                let ghost err = e;
                let body = msg.as_str().as_bytes_vec();
                let resp = Response::with_body(status, body);
                proof {
                    assert(mapped_response(Err::<Response, Error>(err), resp));
                }
                resp
            },
        }
    }
}

/// Route registration appends one route and changes nothing else: the new
/// table is the old with the compiled binding at its end, and the shared
/// state is untouched.
pub open spec fn registered<S, F>(
    before: &App<S, F>,
    after: &App<S, F>,
    method: Method,
    pattern: Seq<char>,
    ch: Handler<F>,
) -> bool {
    &&& after.routes().len() == before.routes().len() + 1
    &&& after.routes().drop_last() == before.routes()
    &&& after.routes().last().method_of() == method
    &&& after.routes().last().path_view() == compile(pattern)
    &&& after.routes().last().chain() == chain_seq(ch)
    &&& after.handle_of() == before.handle_of()
}

/// How the application boundary maps a routing result to the response it
/// returns: a routed response verbatim; an error as its status (500 for a
/// plain internal error) with the error's message encoded as the body.
pub open spec fn mapped_response(rr: Result<Response, Error>, r: Response) -> bool {
    match rr {
        Ok(resp) => r == resp,
        Err(e) => {
            &&& r.status == status_of_error(e)
            &&& r.body@ == vstd::utf8::encode_utf8(message_of_error(e))
            &&& r.headers@ == Map::<Seq<char>, Seq<char>>::empty()
        },
    }
}

/// The application's dispatch outcome: some routing result that the route
/// table admits for this request, mapped to a concrete response.
pub open spec fn app_response<S, T, F: Fn(Request, Option<Response>, Params, AppHandle<S>, T) -> HTTPResult<T>>(
    routes: Seq<Route<F>>,
    req: Request,
    app: AppHandle<S>,
    r: Response,
) -> bool {
    exists|rr: Result<Response, Error>|
        #[trigger] router_outcome::<S, T, F>(routes, req, app, rr) && mapped_response(rr, r)
}

/// TestApp is a testing surface for applications: it issues synthetic
/// requests to an [`App`] without standing up a listener.
#[verifier::reject_recursive_types(S)]
pub struct TestApp<S, F> {
    app: App<S, F>,
    headers: Option<Headers>,
}

impl<S, F> TestApp<S, F> {
    /// The wrapped application's route table.
    pub closed spec fn routes(&self) -> Seq<Route<F>> {
        self.app.routes()
    }

    /// The wrapped application's handle.
    pub closed spec fn handle_of(&self) -> AppHandle<S> {
        self.app.handle_of()
    }

    /// The headers applied to every issued request.
    pub closed spec fn headers_of(&self) -> Map<Seq<char>, Seq<char>> {
        match self.headers {
            None => Map::empty(),
            Some(h) => h@,
        }
    }

    /// Wrap an application for testing.
    pub fn new(app: App<S, F>) -> (r: Self)
        ensures
            r.routes() == app.routes(),
            r.handle_of() == app.handle_of(),
            r.headers_of() == Map::<Seq<char>, Seq<char>>::empty(),
    {
        TestApp { app, headers: None }
    }

    /// Apply headers to every following request.
    pub fn with_headers(self, headers: Headers) -> (r: Self)
        ensures
            r.routes() == self.routes(),
            r.handle_of() == self.handle_of(),
            r.headers_of() == headers@,
    {
        TestApp { app: self.app, headers: Some(headers) }
    }

    /// Dispatch a request to the application.
    pub fn dispatch<T: TransientState>(&self, req: Request) -> (r: Response) where F: Fn(
        Request,
        Option<Response>,
        Params,
        AppHandle<S>,
        T,
    ) -> HTTPResult<T>
        requires
            router_total::<S, T, F>(self.routes(), self.handle_of()),
        ensures
            app_response::<S, T, F>(self.routes(), req, self.handle_of(), r),
    {
        self.app.dispatch(req)
    }

    /// Build a request carrying the configured headers.
    fn make_request(&self, method: Method, path: &str, body: Vec<u8>) -> (r: Request)
        ensures
            r.method == method,
            r.path@ == path@,
            r.headers@ == self.headers_of(),
            r.body@ == body@,
    {
        let mut req = Request::new(method, path.to_owned());
        match &self.headers {
            None => {},
            Some(h) => {
                req.headers = h.clone();
            },
        }
        req.body = body;
        req
    }

    /// Perform a GET request against the path.
    pub fn get<T: TransientState>(&self, path: &str) -> (r: Response) where F: Fn(
        Request,
        Option<Response>,
        Params,
        AppHandle<S>,
        T,
    ) -> HTTPResult<T>
        requires
            router_total::<S, T, F>(self.routes(), self.handle_of()),
        ensures
            issued::<S, T, F>(self, Method::Get, path@, Seq::<u8>::empty(), r),
    {
        let req = self.make_request(Method::Get, path, Vec::new());
        self.app.dispatch(req)
    }

    /// Perform a POST request against the path.
    pub fn post<T: TransientState>(&self, path: &str, body: Vec<u8>) -> (r: Response) where F: Fn(
        Request,
        Option<Response>,
        Params,
        AppHandle<S>,
        T,
    ) -> HTTPResult<T>
        requires
            router_total::<S, T, F>(self.routes(), self.handle_of()),
        ensures
            issued::<S, T, F>(self, Method::Post, path@, body@, r),
    {
        let req = self.make_request(Method::Post, path, body);
        self.app.dispatch(req)
    }

    /// Perform a DELETE request against the path.
    pub fn delete<T: TransientState>(&self, path: &str) -> (r: Response) where F: Fn(
        Request,
        Option<Response>,
        Params,
        AppHandle<S>,
        T,
    ) -> HTTPResult<T>
        requires
            router_total::<S, T, F>(self.routes(), self.handle_of()),
        ensures
            issued::<S, T, F>(self, Method::Delete, path@, Seq::<u8>::empty(), r),
    {
        let req = self.make_request(Method::Delete, path, Vec::new());
        self.app.dispatch(req)
    }

    /// Perform a PUT request against the path.
    pub fn put<T: TransientState>(&self, path: &str, body: Vec<u8>) -> (r: Response) where F: Fn(
        Request,
        Option<Response>,
        Params,
        AppHandle<S>,
        T,
    ) -> HTTPResult<T>
        requires
            router_total::<S, T, F>(self.routes(), self.handle_of()),
        ensures
            issued::<S, T, F>(self, Method::Put, path@, body@, r),
    {
        let req = self.make_request(Method::Put, path, body);
        self.app.dispatch(req)
    }

    /// Perform an OPTIONS request against the path.
    pub fn options<T: TransientState>(&self, path: &str) -> (r: Response) where F: Fn(
        Request,
        Option<Response>,
        Params,
        AppHandle<S>,
        T,
    ) -> HTTPResult<T>
        requires
            router_total::<S, T, F>(self.routes(), self.handle_of()),
        ensures
            issued::<S, T, F>(self, Method::Options, path@, Seq::<u8>::empty(), r),
    {
        let req = self.make_request(Method::Options, path, Vec::new());
        self.app.dispatch(req)
    }

    /// Perform a PATCH request against the path.
    pub fn patch<T: TransientState>(&self, path: &str, body: Vec<u8>) -> (r: Response) where F: Fn(
        Request,
        Option<Response>,
        Params,
        AppHandle<S>,
        T,
    ) -> HTTPResult<T>
        requires
            router_total::<S, T, F>(self.routes(), self.handle_of()),
        ensures
            issued::<S, T, F>(self, Method::Patch, path@, body@, r),
    {
        let req = self.make_request(Method::Patch, path, body);
        self.app.dispatch(req)
    }

    /// Perform a HEAD request against the path.
    pub fn head<T: TransientState>(&self, path: &str) -> (r: Response) where F: Fn(
        Request,
        Option<Response>,
        Params,
        AppHandle<S>,
        T,
    ) -> HTTPResult<T>
        requires
            router_total::<S, T, F>(self.routes(), self.handle_of()),
        ensures
            issued::<S, T, F>(self, Method::Head, path@, Seq::<u8>::empty(), r),
    {
        let req = self.make_request(Method::Head, path, Vec::new());
        self.app.dispatch(req)
    }

    /// Perform a TRACE request against the path.
    pub fn trace<T: TransientState>(&self, path: &str) -> (r: Response) where F: Fn(
        Request,
        Option<Response>,
        Params,
        AppHandle<S>,
        T,
    ) -> HTTPResult<T>
        requires
            router_total::<S, T, F>(self.routes(), self.handle_of()),
        ensures
            issued::<S, T, F>(self, Method::Trace, path@, Seq::<u8>::empty(), r),
    {
        let req = self.make_request(Method::Trace, path, Vec::new());
        self.app.dispatch(req)
    }

    /// Perform a CONNECT request against the path.
    pub fn connect<T: TransientState>(&self, path: &str) -> (r: Response) where F: Fn(
        Request,
        Option<Response>,
        Params,
        AppHandle<S>,
        T,
    ) -> HTTPResult<T>
        requires
            router_total::<S, T, F>(self.routes(), self.handle_of()),
        ensures
            issued::<S, T, F>(self, Method::Connect, path@, Seq::<u8>::empty(), r),
    {
        let req = self.make_request(Method::Connect, path, Vec::new());
        self.app.dispatch(req)
    }
}

/// A synthetic request with this method, path, the configured headers and
/// this body was dispatched and yielded the response.
pub open spec fn issued<S, T, F: Fn(Request, Option<Response>, Params, AppHandle<S>, T) -> HTTPResult<T>>(
    ta: &TestApp<S, F>,
    method: Method,
    path: Seq<char>,
    body: Seq<u8>,
    r: Response,
) -> bool {
    exists|req: Request|
        {
            &&& req.method == method
            &&& req.path@ == path
            &&& req.headers@ == ta.headers_of()
            &&& req.body@ == body
            &&& #[trigger] app_response::<S, T, F>(ta.routes(), req, ta.handle_of(), r)
        }
}

} // verus!
