//! Handler construction and execution: a handler chain is a singly linked
//! sequence of middleware functions, each invoked with the current request,
//! response, routing parameters, application handle and transient state,
//! and short-circuiting on the first error.

use vstd::prelude::*;

use crate::message::{Request, Response};
use crate::params::Params;
use crate::state::AppHandle;
use crate::HTTPResult;

verus! {

/// A node of a handler chain: one middleware function plus the optionally
/// owned rest of the chain. Built once at route-registration time and
/// immutable afterwards.
pub struct Handler<F> {
    handler: F,
    next: Box<Option<Handler<F>>>,
}

impl<F: Clone> Clone for Handler<F> {
    /// The chain is shared read-only across concurrent dispatches of the
    /// same route; cloning copies each node.
    fn clone(&self) -> Self
        decreases *self,
    {
        Handler {
            handler: self.handler.clone(),
            next: Box::new(
                match &*self.next {
                    None => None,
                    Some(m) => Some(m.clone()),
                },
            ),
        }
    }
}

/// The chain's functions, outermost (first-executed) first.
pub closed spec fn chain_seq<F>(h: Handler<F>) -> Seq<F>
    decreases h,
{
    seq![h.handler] + match *h.next {
        None => Seq::<F>::empty(),
        Some(m) => chain_seq(m),
    }
}

/// Whether every function of the chain accepts every invocation that hands
/// it this application handle; routable handlers place no demands on their
/// inputs.
pub open spec fn chain_total<S, T, F: Fn(Request, Option<Response>, Params, AppHandle<S>, T) -> HTTPResult<T>>(
    fs: Seq<F>,
    app: AppHandle<S>,
) -> bool {
    forall|i: int, req: Request, resp: Option<Response>, pc: Params, st: T|
        0 <= i < fs.len() ==> #[trigger] call_requires(fs[i], (req, resp, pc, app, st))
}

/// The input to the chain's step `i`: the initial triple for the first
/// step, and the previous step's output after that.
pub open spec fn step_in<T>(
    a0: (Request, Option<Response>, T),
    outs: Seq<(Request, Option<Response>, T)>,
    i: int,
) -> (Request, Option<Response>, T) {
    if i == 0 {
        a0
    } else {
        outs[i - 1]
    }
}

/// One possible invocation of a single handler function: it received the
/// triple, a copy of the parameter mapping and the application handle, and
/// returned `r`.
pub open spec fn handler_step<S, T, F: Fn(Request, Option<Response>, Params, AppHandle<S>, T) -> HTTPResult<T>>(
    f: F,
    t: (Request, Option<Response>, T),
    pview: Map<Seq<char>, Seq<char>>,
    app: AppHandle<S>,
    r: HTTPResult<T>,
) -> bool {
    exists|pc: Params| pc@ == pview && call_ensures(f, (t.0, t.1, pc, app, t.2), r)
}

/// Whether `outs` records successful runs of the chain's first steps: step
/// `i` took step `i`'s input and returned `Ok(outs[i])`.
pub open spec fn prefix_runs<S, T, F: Fn(Request, Option<Response>, Params, AppHandle<S>, T) -> HTTPResult<T>>(
    fs: Seq<F>,
    pview: Map<Seq<char>, Seq<char>>,
    app: AppHandle<S>,
    a0: (Request, Option<Response>, T),
    outs: Seq<(Request, Option<Response>, T)>,
) -> bool {
    forall|i: int|
        0 <= i < outs.len() ==> #[trigger] handler_step(
            fs[i],
            step_in(a0, outs, i),
            pview,
            app,
            Ok(outs[i]),
        )
}

/// How a whole chain run relates its result to its functions: on success
/// every step ran in order, each feeding the next, and the last output is
/// the result; on failure the steps before the failing one ran in order
/// and the failing step returned the error. No step after a failure runs.
pub open spec fn chain_result<S, T, F: Fn(Request, Option<Response>, Params, AppHandle<S>, T) -> HTTPResult<T>>(
    fs: Seq<F>,
    pview: Map<Seq<char>, Seq<char>>,
    app: AppHandle<S>,
    a0: (Request, Option<Response>, T),
    r: HTTPResult<T>,
) -> bool {
    match r {
        Ok(t) => exists|outs: Seq<(Request, Option<Response>, T)>|
            {
                &&& outs.len() == fs.len()
                &&& #[trigger] prefix_runs(fs, pview, app, a0, outs)
                &&& if fs.len() == 0 {
                    t == a0
                } else {
                    t == outs.last()
                }
            },
        Err(_) => exists|outs: Seq<(Request, Option<Response>, T)>|
            {
                &&& outs.len() < fs.len()
                &&& #[trigger] prefix_runs(fs, pview, app, a0, outs)
                &&& handler_step(
                    fs[outs.len() as int],
                    step_in(a0, outs, outs.len() as int),
                    pview,
                    app,
                    r,
                )
            },
    }
}

/// Every chain holds at least its own node's function.
pub proof fn lemma_chain_nonempty<F>(h: Handler<F>)
    ensures
        chain_seq(h).len() >= 1,
{
}

impl<F> Handler<F> {
    /// Construct a handler from a middleware function and the optional
    /// rest of the chain.
    pub fn new(handler: F, next: Option<Handler<F>>) -> (r: Self)
        ensures
            chain_seq(r) == seq![handler] + (match next {
                None => Seq::<F>::empty(),
                Some(n) => chain_seq(n),
            }),
    {
        let r = Handler { handler, next: Box::new(next) };
        proof {
            assert(chain_seq(r) == seq![r.handler] + match *r.next {
                None => Seq::<F>::empty(),
                Some(m) => chain_seq(m),
            });
        }
        r
    }

    /// Run the chain: invoke this node's function, then on success recurse
    /// into the rest with the function's output; the first error stops the
    /// run and is the result.
    pub fn perform<S, T>(
        &self,
        req: Request,
        response: Option<Response>,
        params: Params,
        app: AppHandle<S>,
        state: T,
    ) -> (r: HTTPResult<T>) where F: Fn(Request, Option<Response>, Params, AppHandle<S>, T) -> HTTPResult<T>
        requires
            chain_total(chain_seq(*self), app),
        ensures
            chain_result(chain_seq(*self), params@, app, (req, response, state), r),
        decreases *self,
    {
        let ghost fs = chain_seq(*self);
        let ghost a0 = (req, response, state);
        proof {
            assert(fs == seq![self.handler] + match *self.next {
                None => Seq::<F>::empty(),
                Some(m) => chain_seq(m),
            });
            assert(fs[0] == self.handler);
        }
        let pc = params.clone();
        let ap = app.dup();
        let y = (self.handler)(req, response, pc, ap, state);
        match y {
            Ok((req2, resp2, state2)) => {
                proof {
                    assert(handler_step(fs[0], a0, params@, app, Ok((req2, resp2, state2))));
                }
                match &*self.next {
                    None => {
                        proof {
                            let outs = seq![(req2, resp2, state2)];
                            assert(prefix_runs(fs, params@, app, a0, outs)) by {
                                assert(handler_step(
                                    fs[0],
                                    step_in(a0, outs, 0),
                                    params@,
                                    app,
                                    Ok(outs[0]),
                                ));
                            }
                            assert(outs.last() == (req2, resp2, state2));
                        }
                        Ok((req2, resp2, state2))
                    },
                    Some(m) => {
                        let ghost tail = chain_seq(*m);
                        proof {
                            assert(fs =~= seq![self.handler] + tail);
                            assert(chain_total(tail, app)) by {
                                assert forall|
                                    i: int,
                                    rq: Request,
                                    rs: Option<Response>,
                                    p2: Params,
                                    st: T,
                                |
                                    0 <= i < tail.len() implies #[trigger] call_requires(
                                    tail[i],
                                    (rq, rs, p2, app, st),
                                ) by {
                                    assert(tail[i] == fs[i + 1]);
                                    assert(call_requires(fs[i + 1], (rq, rs, p2, app, st)));
                                }
                            }
                        }
                        let r = m.perform(req2, resp2, params, app, state2);
                        proof {
                            let t1 = (req2, resp2, state2);
                            lemma_chain_result_cons(
                                self.handler,
                                tail,
                                params@,
                                app,
                                a0,
                                t1,
                                r,
                            );
                        }
                        r
                    },
                }
            },
            Err(e) => {
                proof {
                    let outs = Seq::<(Request, Option<Response>, T)>::empty();
                    assert(prefix_runs(fs, params@, app, a0, outs));
                    assert(handler_step(fs[0], step_in(a0, outs, 0), params@, app, Err(e)));
                }
                Err(e)
            },
        }
    }
}

/// A run of the rest of the chain, prefixed by a successful first step,
/// is a run of the whole chain.
proof fn lemma_chain_result_cons<S, T, F: Fn(Request, Option<Response>, Params, AppHandle<S>, T) -> HTTPResult<T>>(
    f0: F,
    tail: Seq<F>,
    pview: Map<Seq<char>, Seq<char>>,
    app: AppHandle<S>,
    a0: (Request, Option<Response>, T),
    t1: (Request, Option<Response>, T),
    r: HTTPResult<T>,
)
    requires
        handler_step(f0, a0, pview, app, Ok(t1)),
        chain_result(tail, pview, app, t1, r),
    ensures
        chain_result(seq![f0] + tail, pview, app, a0, r),
{
    let fs = seq![f0] + tail;
    match r {
        Ok(t) => {
            let outs0 = choose|outs: Seq<(Request, Option<Response>, T)>|
                {
                    &&& outs.len() == tail.len()
                    &&& #[trigger] prefix_runs(tail, pview, app, t1, outs)
                    &&& if tail.len() == 0 {
                        t == t1
                    } else {
                        t == outs.last()
                    }
                };
            let outs = seq![t1] + outs0;
            assert(outs.len() == fs.len());
            assert(prefix_runs(fs, pview, app, a0, outs)) by {
                assert(handler_step(fs[0], step_in(a0, outs, 0), pview, app, Ok(outs[0])));
                assert forall|i: int| 1 <= i < outs.len() implies #[trigger] handler_step(
                    fs[i],
                    step_in(a0, outs, i),
                    pview,
                    app,
                    Ok(outs[i]),
                ) by {
                    assert(fs[i] == tail[i - 1]);
                    assert(outs[i] == outs0[i - 1]);
                    assert(step_in(a0, outs, i) == step_in(t1, outs0, i - 1));
                    assert(handler_step(
                        tail[i - 1],
                        step_in(t1, outs0, i - 1),
                        pview,
                        app,
                        Ok(outs0[i - 1]),
                    ));
                }
            }
            if tail.len() == 0 {
                assert(outs.last() == t1);
            } else {
                assert(outs.last() == outs0.last());
            }
        },
        Err(_) => {
            let outs0 = choose|outs: Seq<(Request, Option<Response>, T)>|
                {
                    &&& outs.len() < tail.len()
                    &&& #[trigger] prefix_runs(tail, pview, app, t1, outs)
                    &&& handler_step(
                        tail[outs.len() as int],
                        step_in(t1, outs, outs.len() as int),
                        pview,
                        app,
                        r,
                    )
                };
            let outs = seq![t1] + outs0;
            assert(outs.len() < fs.len());
            assert(prefix_runs(fs, pview, app, a0, outs)) by {
                assert(handler_step(fs[0], step_in(a0, outs, 0), pview, app, Ok(outs[0])));
                assert forall|i: int| 1 <= i < outs.len() implies #[trigger] handler_step(
                    fs[i],
                    step_in(a0, outs, i),
                    pview,
                    app,
                    Ok(outs[i]),
                ) by {
                    assert(fs[i] == tail[i - 1]);
                    assert(outs[i] == outs0[i - 1]);
                    assert(step_in(a0, outs, i) == step_in(t1, outs0, i - 1));
                    assert(handler_step(
                        tail[i - 1],
                        step_in(t1, outs0, i - 1),
                        pview,
                        app,
                        Ok(outs0[i - 1]),
                    ));
                }
            }
            assert(fs[outs.len() as int] == tail[outs0.len() as int]);
            assert(step_in(a0, outs, outs.len() as int) == step_in(
                t1,
                outs0,
                outs0.len() as int,
            ));
        },
    }
}

/// Combine middleware functions into a single chain, so that they cascade
/// in declared order: the list is consumed back to front, each function
/// linked in front of the previously linked ones, so the first declared
/// function becomes the outermost, first-executed node.
pub fn compose<F>(mut funcs: Vec<F>) -> (r: Handler<F>)
    requires
        funcs@.len() > 0,
    ensures
        chain_seq(r) == funcs@,
{
    let ghost all = funcs@;
    let mut cur: Option<Handler<F>> = None;
    proof {
        assert(all.skip(all.len() as int) =~= Seq::<F>::empty());
    }
    while funcs.len() > 0
        invariant
            funcs@.len() <= all.len(),
            funcs@ == all.take(funcs@.len() as int),
            funcs@.len() < all.len() ==> (cur matches Some(h) && chain_seq(h) == all.skip(
                funcs@.len() as int,
            )),
            funcs@.len() == all.len() ==> cur is None,
        decreases funcs@.len(),
    {
        let ghost k: int = funcs@.len() - 1;
        let f = funcs.pop().unwrap();
        proof {
            assert(f == all[k]);
            assert(funcs@ =~= all.take(k));
        }
        let linked = Handler::new(f, cur);
        proof {
            assert(chain_seq(linked) =~= all.skip(k));
        }
        cur = Some(linked);
    }
    proof {
        assert(all.skip(0) =~= all);
    }
    cur.unwrap()
}

} // verus!
