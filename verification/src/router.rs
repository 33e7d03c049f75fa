//! Route and Router: binding methods and path patterns to handler chains,
//! and finding the first structural match for an incoming request.

use vstd::prelude::*;

use crate::handler::{chain_result, chain_seq, chain_total, Handler};
use crate::params::Params;
use crate::message::{Method, Request, Response};
use crate::path::{
    compile, extract_map, extract_root, extract_segs, literals_agree, matches_str, Path,
    RoutePartView,
};
use crate::state::AppHandle;
use crate::{Error, HTTPResult, TransientState};

verus! {

/// Whether extraction of parameters from `provided` fails against `pat`:
/// no root shortcut applies, and the raw segments disagree with the
/// pattern in count or in a literal.
pub open spec fn extract_fails(pat: Seq<RoutePartView>, provided: Seq<char>) -> bool {
    !extract_root(pat, provided) && (extract_segs(provided).len() != pat.len()
        || !literals_agree(pat, extract_segs(provided)))
}

/// The parameter mapping a successful extraction yields.
pub open spec fn extracted(pat: Seq<RoutePartView>, provided: Seq<char>) -> Map<
    Seq<char>,
    Seq<char>,
> {
    if extract_root(pat, provided) {
        Map::empty()
    } else {
        extract_map(pat, extract_segs(provided))
    }
}

/// A route binds an HTTP method and a compiled path to a handler chain.
/// Created at registration time and immutable thereafter.
pub struct Route<F> {
    method: Method,
    path: Path,
    handler: Handler<F>,
}

impl<F> Route<F> {
    /// The route's method.
    pub closed spec fn method_of(&self) -> Method {
        self.method
    }

    /// The route's compiled path parts.
    pub closed spec fn path_view(&self) -> Seq<RoutePartView> {
        self.path@
    }

    /// The route's handler functions, outermost first.
    pub closed spec fn chain(&self) -> Seq<F> {
        chain_seq(self.handler)
    }

    /// Bind a method and a string pattern to a handler chain.
    pub fn new(method: Method, path: String, handler: Handler<F>) -> (r: Self)
        ensures
            r.method_of() == method,
            r.path_view() == compile(path@),
            r.chain() == chain_seq(handler),
    {
        Route { method, handler, path: Path::new(path) }
    }

    /// The route's equality and ordering key: the method's name and the
    /// path's canonical string, so routes can be stored and compared
    /// deterministically.
    pub fn sort_key(&self) -> (r: String)
        ensures
            r@ == crate::message::method_name(self.method_of()) + seq![' '] + crate::path::canon(
                self.path_view(),
            ),
    {
        let mut out = self.method.name().to_owned();
        let space = " ";
        proof {
            reveal_strlit(" ");
            assert(space@ =~= seq![' ']);
        }
        out.append(space);
        let path = self.path.to_string();
        out.append(path.as_str());
        out
    }

    /// Extract parameters from the provided path, reject a mismatched
    /// method, and run the handler chain on a fresh response slot.
    pub fn dispatch<S, T>(
        &self,
        provided: String,
        req: Request,
        app: AppHandle<S>,
        state: T,
    ) -> (r: HTTPResult<T>) where F: Fn(Request, Option<Response>, Params, AppHandle<S>, T) -> HTTPResult<T>
        requires
            chain_total(self.chain(), app),
        ensures
            extract_fails(self.path_view(), provided@) ==> (r matches Err(e)
                && e is InternalServerError),
            !extract_fails(self.path_view(), provided@) && self.method_of() != req.method ==> (
            r matches Err(e) && (e matches Error::StatusCode(s, msg) && s == 404u16 && msg@
                == Seq::<char>::empty())),
            !extract_fails(self.path_view(), provided@) && self.method_of() == req.method
                ==> chain_result(
                self.chain(),
                extracted(self.path_view(), provided@),
                app,
                (req, None::<Response>, state),
                r,
            ),
    {
        let params = match self.path.extract(provided) {
            Ok(p) => p,
            Err(e) => {
                return Err(e);
            },
        };
        if !(self.method == req.method) {
            return Err(Error::StatusCode(404, String::new()));
        }
        self.handler.perform(req, None, params, app, state)
    }
}

/// Every route's chain holds at least one handler function.
pub proof fn lemma_route_chain_nonempty<F>(rt: Route<F>)
    ensures
        rt.chain().len() >= 1,
{
    crate::handler::lemma_chain_nonempty(rt.handler);
}

/// Whether a route's path and method both match a request.
pub open spec fn route_matches<F>(rt: Route<F>, method: Method, path: Seq<char>) -> bool {
    matches_str(rt.path_view(), path) && rt.method_of() == method
}

/// The index of the first route matching the request, or the table's
/// length if none does.
pub open spec fn first_match<F>(routes: Seq<Route<F>>, method: Method, path: Seq<char>) -> int
    decreases routes.len(),
{
    if routes.len() == 0 {
        0
    } else if route_matches(routes[0], method, path) {
        0
    } else {
        1 + first_match(routes.drop_first(), method, path)
    }
}

/// `first_match` lands on the first matching route, or past the end.
pub proof fn lemma_first_match<F>(routes: Seq<Route<F>>, method: Method, path: Seq<char>)
    ensures
        0 <= first_match(routes, method, path) <= routes.len(),
        first_match(routes, method, path) < routes.len() ==> route_matches(
            routes[first_match(routes, method, path)],
            method,
            path,
        ),
        forall|j: int|
            0 <= j < first_match(routes, method, path) ==> !route_matches(
                routes[j],
                method,
                path,
            ),
    decreases routes.len(),
{
    if routes.len() > 0 && !route_matches(routes[0], method, path) {
        lemma_first_match(routes.drop_first(), method, path);
        assert(forall|j: int|
            0 <= j < routes.drop_first().len() ==> routes.drop_first()[j] == routes[j + 1]);
        assert forall|j: int|
            0 <= j < first_match(routes, method, path) implies !route_matches(
            routes[j],
            method,
            path,
        ) by {
            if j > 0 {
                assert(!route_matches(routes.drop_first()[j - 1], method, path));
            }
        }
    }
}

/// Whether every route's chain accepts every invocation that hands it
/// this application handle.
pub open spec fn router_total<S, T, F: Fn(Request, Option<Response>, Params, AppHandle<S>, T) -> HTTPResult<T>>(
    routes: Seq<Route<F>>,
    app: AppHandle<S>,
) -> bool {
    forall|i: int|
        0 <= i < routes.len() ==> chain_total((#[trigger] routes[i]).chain(), app)
}

/// An ordered collection of routes, walked in registration order.
pub struct Router<F>(Vec<Route<F>>);

impl<F> Router<F> {
    /// The route table, in registration order.
    pub closed spec fn routes(&self) -> Seq<Route<F>> {
        self.0@
    }

    /// An empty route table.
    pub fn new() -> (r: Self)
        ensures
            r.routes() == Seq::<Route<F>>::empty(),
    {
        Router(Vec::new())
    }

    /// Append a route for a method and a string pattern. No duplicate
    /// detection is performed: lookup returns the first structural match
    /// in registration order, so registration order is significant.
    pub fn add(&mut self, method: Method, path: String, ch: Handler<F>)
        ensures
            final(self).routes().len() == old(self).routes().len() + 1,
            final(self).routes().drop_last() == old(self).routes(),
            final(self).routes().last().method_of() == method,
            final(self).routes().last().path_view() == compile(path@),
            final(self).routes().last().chain() == chain_seq(ch),
    {
        self.0.push(Route::new(method, path, ch));
        proof {
            assert(self.routes().drop_last() =~= old(self).routes());
        }
    }

    /// Walk the route table in order; the first route whose path matches
    /// the request's path and whose method equals the request's method
    /// gets the dispatch: its parameters are extracted, a fresh transient
    /// state is built, and its chain is run. A chain that completes
    /// without a response is an internal-server-error condition; with no
    /// matching route the dispatch is a no-route error.
    pub fn dispatch<S, T: TransientState>(&self, req: Request, app: AppHandle<S>) -> (r: Result<
        Response,
        Error,
    >) where F: Fn(Request, Option<Response>, Params, AppHandle<S>, T) -> HTTPResult<T>
        requires
            router_total(self.routes(), app),
        ensures
            router_outcome::<S, T, F>(self.routes(), req, app, r),
    {
        let ghost routes = self.routes();
        let ghost m = req.method;
        let ghost p = req.path@;
        proof {
            lemma_first_match(routes, m, p);
        }
        let n = self.0.len();
        let mut i: usize = 0;
        while i < n
            invariant
                i <= n,
                n == self.0.len(),
                routes == self.routes(),
                m == req.method,
                p == req.path@,
                router_total(routes, app),
                forall|j: int| 0 <= j < i ==> !route_matches(routes[j], m, p),
            decreases n - i,
        {
            let route = &self.0[i];
            let path = req.path.clone();
            if route.path.matches(path) && route.method == req.method {
                proof {
                    lemma_first_match_at(routes, m, p, i as int);
                }
                let provided = req.path.clone();
                let state = T::initial();
                let ghost st = state;
                match route.dispatch(provided, req, app, state) {
                    Err(e) => {
                        proof {
                            if !extract_fails(routes[i as int].path_view(), p) {
                                assert(dispatch_outcome(routes[i as int], req, app, st, Err(e)));
                            }
                        }
                        return Err(e);
                    },
                    Ok((_rq, response, _ts)) => {
                        match response {
                            None => {
                                let r = Err(Error::StatusCode(500, String::new()));
                                proof {
                                    assert(dispatch_outcome(routes[i as int], req, app, st, r));
                                }
                                return r;
                            },
                            Some(resp) => {
                                let ghost rr = Ok::<Response, Error>(resp);
                                proof {
                                    assert(dispatch_outcome(routes[i as int], req, app, st, rr));
                                }
                                return Ok(resp);
                            },
                        }
                    },
                }
            }
            i += 1;
        }
        Err(Error::StatusCode(405, String::new()))
    }
}

/// If a route matches at `i` and none does earlier, `first_match` lands
/// on `i`.
proof fn lemma_first_match_at<F>(routes: Seq<Route<F>>, method: Method, path: Seq<char>, i: int)
    requires
        0 <= i < routes.len(),
        route_matches(routes[i], method, path),
        forall|j: int| 0 <= j < i ==> !route_matches(routes[j], method, path),
    ensures
        first_match(routes, method, path) == i,
{
    lemma_first_match(routes, method, path);
    if first_match(routes, method, path) < i {
        assert(!route_matches(routes[first_match(routes, method, path)], method, path));
    }
}

/// What walking the route table yields: with no matching route the
/// no-route status, and otherwise the first matching route's outcome for
/// the transient state its factory produced.
pub open spec fn router_outcome<S, T, F: Fn(Request, Option<Response>, Params, AppHandle<S>, T) -> HTTPResult<T>>(
    routes: Seq<Route<F>>,
    req: Request,
    app: AppHandle<S>,
    r: Result<Response, Error>,
) -> bool {
    let k = first_match(routes, req.method, req.path@);
    &&& k >= routes.len() ==> (r matches Err(e) && (e matches Error::StatusCode(s, msg) && s
        == 405u16 && msg@ == Seq::<char>::empty()))
    &&& k < routes.len() ==> ({
        let rt = routes[k];
        &&& extract_fails(rt.path_view(), req.path@) ==> (r matches Err(e)
            && e is InternalServerError)
        &&& !extract_fails(rt.path_view(), req.path@) ==> exists|st: T|
            #[trigger] dispatch_outcome(rt, req, app, st, r)
    })
}

/// What a dispatched route yields, given the transient state the factory
/// produced: a response only through a chain run that set one; a chain
/// run that set none surfaces as the internal-server-error status; a
/// chain error is the dispatch error.
pub open spec fn dispatch_outcome<S, T, F: Fn(Request, Option<Response>, Params, AppHandle<S>, T) -> HTTPResult<T>>(
    rt: Route<F>,
    req: Request,
    app: AppHandle<S>,
    st: T,
    r: Result<Response, Error>,
) -> bool {
    let pview = extracted(rt.path_view(), req.path@);
    let a0 = (req, None::<Response>, st);
    match r {
        Ok(resp) => exists|t: (Request, Option<Response>, T)|
            #[trigger] chain_result(rt.chain(), pview, app, a0, Ok(t)) && t.1 == Some(resp),
        Err(e) => chain_result(rt.chain(), pview, app, a0, Err(e)) || ((
        e matches Error::StatusCode(s, msg) && s == 500u16 && msg@ == Seq::<char>::empty())
            && exists|t: (Request, Option<Response>, T)|
            #[trigger] chain_result(rt.chain(), pview, app, a0, Ok(t)) && t.1 is None),
    }
}

} // verus!
