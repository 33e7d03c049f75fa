//! Laws the routing engine obeys, stated over the specification model and
//! proved once and for all.

use vstd::prelude::*;

use crate::app::{app_response, mapped_response, status_of_error};
use crate::handler::{chain_result, handler_step, prefix_runs, step_in};
use crate::message::{Request, Response};
use crate::params::Params;
use crate::path::{
    compile, extract_root, extract_segs, find_ch, lemma_find_ch, lemma_find_ch_at,
    lemma_parts_of_segs_snoc, matches_str, param_names, parts_of_segs, seg_part, split_on,
    trim_leading, trim_trailing, walk, RoutePartView,
};
use crate::router::{
    dispatch_outcome, extract_fails, extracted, first_match, lemma_route_chain_nonempty,
    router_outcome, Route,
};
use crate::state::AppHandle;
use crate::{Error, HTTPResult};

verus! {

/// No compiled pattern segment is the root sentinel.
proof fn lemma_parts_no_leader(segs: Seq<Seq<char>>)
    ensures
        forall|i: int| 0 <= i < parts_of_segs(segs).len() ==> !(#[trigger] parts_of_segs(segs)[i]
            is Leader),
    decreases segs.len(),
{
    if segs.len() > 0 {
        lemma_parts_no_leader(segs.drop_first());
    }
}

/// A compiled pattern starts with the root sentinel and holds no other.
pub proof fn lemma_compile_shape(p: Seq<char>)
    ensures
        compile(p).len() >= 1,
        compile(p)[0] is Leader,
        forall|i: int| 1 <= i < compile(p).len() ==> !(#[trigger] compile(p)[i] is Leader),
{
    let t = trim_trailing(p, '/');
    if find_ch(t, '/') != t.len() {
        lemma_parts_no_leader(split_on(t, '/'));
        assert forall|i: int| 1 <= i < compile(p).len() implies !(#[trigger] compile(p)[i]
            is Leader) by {
            assert(compile(p)[i] == parts_of_segs(split_on(t, '/'))[i - 1]);
        }
    }
}

/// A sentinel-free pattern walks over itself, whatever was consumed before.
proof fn lemma_walk_self_no_leader(pat: Seq<RoutePartView>, seen: bool)
    requires
        forall|i: int| 0 <= i < pat.len() ==> !(#[trigger] pat[i] is Leader),
    ensures
        walk(pat, pat, seen),
    decreases pat.len(),
{
    if pat.len() > 0 {
        assert(!(pat[0] is Leader));
        assert(forall|i: int|
            0 <= i < pat.drop_first().len() ==> pat.drop_first()[i] == pat[i + 1]);
        lemma_walk_self_no_leader(pat.drop_first(), seen);
    }
}

/// Every pattern matches the very string it was compiled from: the
/// compiled candidate has the same part count, literals compare equal to
/// themselves, parameters accept anything, and the one sentinel is
/// consumed once.
pub proof fn lemma_matches_self(p: Seq<char>)
    ensures
        matches_str(compile(p), p),
{
    let pat = compile(p);
    lemma_compile_shape(p);
    assert(forall|i: int|
        0 <= i < pat.drop_first().len() ==> pat.drop_first()[i] == pat[i + 1]);
    lemma_walk_self_no_leader(pat.drop_first(), true);
    assert(walk(pat, pat, false));
}

/// A trailing slash does not change what a pattern compiles to.
pub proof fn lemma_compile_trailing_slash(p: Seq<char>)
    ensures
        compile(p + seq!['/']) == compile(p),
{
    let q = p + seq!['/'];
    assert(q.len() > 0 && q.last() == '/');
    assert(q.drop_last() =~= p);
}

/// Trailing-slash insensitivity: a pattern matches its own string with a
/// slash appended.
pub proof fn lemma_matches_trailing_slash(p: Seq<char>)
    ensures
        matches_str(compile(p), p + seq!['/']),
{
    lemma_compile_trailing_slash(p);
    lemma_matches_self(p);
}

/// Splitting after appending a separator and a separator-free tail appends
/// exactly that tail as one further segment.
proof fn lemma_split_append_seg(s: Seq<char>, t: Seq<char>)
    requires
        forall|j: int| 0 <= j < t.len() ==> t[j] != '/',
    ensures
        split_on(s + seq!['/'] + t, '/') == split_on(s, '/') + seq![t],
    decreases s.len(),
{
    let q = s + seq!['/'] + t;
    lemma_find_ch(s, '/');
    let i = find_ch(s, '/');
    if i == s.len() {
        assert forall|j: int| 0 <= j < s.len() implies q[j] != '/' by {
            assert(q[j] == s[j]);
        }
        assert(q[s.len() as int] == '/');
        lemma_find_ch_at(q, '/', s.len() as int);
        assert(split_on(q, '/') == seq![q.take(s.len() as int)] + split_on(
            q.skip(s.len() as int + 1),
            '/',
        ));
        assert(q.take(s.len() as int) =~= s);
        assert(q.skip(s.len() as int + 1) =~= t);
        lemma_find_ch(t, '/');
        assert(find_ch(t, '/') == t.len());
        assert(split_on(t, '/') == seq![t]);
        assert(split_on(s, '/') == seq![s]);
        assert(seq![s] + seq![t] =~= split_on(s, '/') + seq![t]);
    } else {
        assert(s[i] == '/');
        assert forall|j: int| 0 <= j < i implies q[j] != '/' by {
            assert(q[j] == s[j]);
        }
        assert(q[i] == s[i]);
        lemma_find_ch_at(q, '/', i);
        assert(q.take(i) =~= s.take(i));
        assert(q.skip(i + 1) =~= s.skip(i + 1) + seq!['/'] + t);
        lemma_split_append_seg(s.skip(i + 1), t);
        assert(split_on(q, '/') == seq![s.take(i)] + (split_on(s.skip(i + 1), '/') + seq![t]));
        assert(seq![s.take(i)] + (split_on(s.skip(i + 1), '/') + seq![t]) =~= (seq![s.take(i)]
            + split_on(s.skip(i + 1), '/')) + seq![t]);
    }
}

/// Trailing slashes in a pattern contribute no compiled parts.
proof fn lemma_parts_trim_invariant(s: Seq<char>)
    ensures
        parts_of_segs(split_on(trim_trailing(s, '/'), '/')) == parts_of_segs(split_on(s, '/')),
    decreases s.len(),
{
    if s.len() > 0 && s.last() == '/' {
        let d = s.drop_last();
        assert(s =~= d + seq!['/'] + Seq::<char>::empty());
        lemma_split_append_seg(d, Seq::<char>::empty());
        assert(split_on(s, '/') == split_on(d, '/') + seq![Seq::<char>::empty()]);
        assert(split_on(d, '/') + seq![Seq::<char>::empty()] =~= split_on(d, '/').push(
            Seq::<char>::empty(),
        ));
        lemma_parts_of_segs_snoc(split_on(d, '/'), Seq::<char>::empty());
        lemma_parts_trim_invariant(d);
        assert(parts_of_segs(split_on(s, '/')) =~= parts_of_segs(split_on(d, '/')));
    }
}

/// Appending a further non-empty segment to a pattern's string never
/// matches the pattern: the extended string compiles to one more part.
pub proof fn lemma_matches_extended_false(p: Seq<char>, t: Seq<char>)
    requires
        t.len() > 0,
        forall|j: int| 0 <= j < t.len() ==> t[j] != '/',
    ensures
        !matches_str(compile(p), p + seq!['/'] + t),
{
    let q = p + seq!['/'] + t;
    assert(q.last() == t.last());
    assert(q.last() != '/');
    assert(trim_trailing(q, '/') == q);
    assert(q[p.len() as int] == '/');
    lemma_find_ch(q, '/');
    if find_ch(q, '/') == q.len() {
        assert(q[find_ch(q, '/')] != '/');
        assert(false);
    }
    lemma_split_append_seg(p, t);
    assert(split_on(q, '/') == split_on(p, '/') + seq![t]);
    assert(split_on(p, '/') + seq![t] =~= split_on(p, '/').push(t));
    lemma_parts_of_segs_snoc(split_on(p, '/'), t);
    lemma_parts_trim_invariant(p);
    assert(parts_of_segs(split_on(q, '/')).len() == parts_of_segs(
        split_on(trim_trailing(p, '/'), '/'),
    ).len() + 1);
    assert(compile(q).len() == 2 + parts_of_segs(split_on(trim_trailing(p, '/'), '/')).len());
    let tp = trim_trailing(p, '/');
    if find_ch(tp, '/') == tp.len() {
        assert(compile(p).len() == 1);
        assert(compile(q).len() >= 2);
    } else {
        assert(compile(p).len() == 1 + parts_of_segs(split_on(tp, '/')).len());
    }
    assert(compile(p).len() != compile(q).len());
}

/// Splitting a string that neither starts nor ends with the separator,
/// nor repeats it, yields non-empty segments only.
proof fn lemma_split_all_nonempty(t: Seq<char>)
    requires
        t.len() > 0,
        t[0] != '/',
        t.last() != '/',
        forall|i: int| 0 <= i < t.len() - 1 ==> !((#[trigger] t[i]) == '/' && t[i + 1] == '/'),
    ensures
        forall|j: int| 0 <= j < split_on(t, '/').len() ==> (#[trigger] split_on(t, '/')[j]).len()
            > 0,
    decreases t.len(),
{
    lemma_find_ch(t, '/');
    let i = find_ch(t, '/');
    if i == t.len() {
        assert(split_on(t, '/') == seq![t]);
    } else {
        assert(t[i] == '/');
        assert(i > 0);
        assert(i < t.len() - 1) by {
            if i == t.len() - 1 {
                assert(t.last() == '/');
            }
        }
        assert(t[i + 1] != '/');
        let rest = t.skip(i + 1);
        assert(rest.len() > 0);
        assert(rest[0] == t[i + 1]);
        assert(rest.last() == t.last());
        assert(forall|k: int|
            0 <= k < rest.len() - 1 ==> !((#[trigger] rest[k]) == '/' && rest[k + 1] == '/'))
            by {
            assert(forall|k: int| 0 <= k < rest.len() ==> rest[k] == t[i + 1 + k]);
        }
        lemma_split_all_nonempty(rest);
        assert(split_on(t, '/') == seq![t.take(i)] + split_on(rest, '/'));
        assert(t.take(i).len() > 0);
        assert forall|j: int| 0 <= j < split_on(t, '/').len() implies (#[trigger] split_on(
            t,
            '/',
        )[j]).len() > 0 by {
            if j > 0 {
                assert(split_on(t, '/')[j] == split_on(rest, '/')[j - 1]);
            }
        }
    }
}

/// Non-empty segments compile one part each, positionally.
proof fn lemma_parts_pointwise(segs: Seq<Seq<char>>)
    requires
        forall|j: int| 0 <= j < segs.len() ==> (#[trigger] segs[j]).len() > 0,
    ensures
        parts_of_segs(segs).len() == segs.len(),
        forall|j: int| 0 <= j < segs.len() ==> parts_of_segs(segs)[j] == seg_part(
            #[trigger] segs[j],
        ),
    decreases segs.len(),
{
    if segs.len() > 0 {
        assert(forall|j: int|
            0 <= j < segs.drop_first().len() ==> segs.drop_first()[j] == segs[j + 1]);
        lemma_parts_pointwise(segs.drop_first());
        assert(segs[0].len() > 0);
        assert(parts_of_segs(segs) == seq![seg_part(segs[0])] + parts_of_segs(
            segs.drop_first(),
        ));
        assert forall|j: int| 0 <= j < segs.len() implies parts_of_segs(segs)[j] == seg_part(
            #[trigger] segs[j],
        ) by {
            if j == 0 {
                assert((seq![seg_part(segs[0])] + parts_of_segs(segs.drop_first()))[0]
                    == seg_part(segs[0]));
            } else {
                assert(segs.drop_first()[j - 1] == segs[j]);
                assert(parts_of_segs(segs.drop_first())[j - 1] == seg_part(
                    segs.drop_first()[j - 1],
                ));
                assert(parts_of_segs(segs)[j] == parts_of_segs(segs.drop_first())[j - 1]);
            }
        }
    }
}

/// A successful walk pins every literal position of the pattern to the
/// same literal in the candidate.
proof fn lemma_walk_pointwise(pat: Seq<RoutePartView>, cand: Seq<RoutePartView>, seen: bool)
    requires
        pat.len() == cand.len(),
        walk(pat, cand, seen),
    ensures
        forall|i: int|
            0 <= i < pat.len() ==> match #[trigger] pat[i] {
                RoutePartView::PathComponent(s) => cand[i] == RoutePartView::PathComponent(s),
                _ => true,
            },
    decreases pat.len(),
{
    if pat.len() > 0 {
        assert(forall|i: int|
            0 <= i < pat.drop_first().len() ==> pat.drop_first()[i] == pat[i + 1]);
        assert(forall|i: int|
            0 <= i < cand.drop_first().len() ==> cand.drop_first()[i] == cand[i + 1]);
        lemma_walk_pointwise(
            pat.drop_first(),
            cand.drop_first(),
            seen || (pat[0] is Leader),
        );
        assert forall|i: int|
            0 <= i < pat.len() implies match #[trigger] pat[i] {
            RoutePartView::PathComponent(s) => cand[i] == RoutePartView::PathComponent(s),
            _ => true,
        } by {
            if i > 0 {
                assert(pat.drop_first()[i - 1] == pat[i]);
            }
        }
    }
}

/// For a well-formed request path — one that starts with a slash and
/// repeats none — a structural match guarantees that parameter extraction
/// succeeds: the malformed-parameters error is unreachable through the
/// router for such paths.
pub proof fn lemma_matched_extraction_succeeds(pat: Seq<RoutePartView>, p: Seq<char>)
    requires
        matches_str(pat, p),
        p.len() > 0,
        p[0] == '/',
        forall|i: int| 0 <= i < p.len() - 1 ==> !((#[trigger] p[i]) == '/' && p[i + 1] == '/'),
    ensures
        !extract_fails(pat, p),
{
    let t = trim_trailing(p, '/');
    lemma_trim_is_prefix(p, t);
    lemma_trim_no_trailing(p);
    if t.len() == 0 {
        assert(compile(p) == seq![RoutePartView::Leader]) by {
            lemma_find_ch(t, '/');
        }
        assert(pat.len() == 1);
        assert(extract_root(pat, p));
    } else {
        assert(t[0] == '/');
        assert(t.last() != '/');
        assert(t.len() >= 2) by {
            if t.len() == 1 {
                assert(t.last() == t[0]);
            }
        }
        assert(forall|i: int| 0 <= i < t.len() - 1 ==> !((#[trigger] t[i]) == '/' && t[i + 1] == '/'));
        lemma_find_ch_at(t, '/', 0);
        let t1 = t.skip(1);
        assert(split_on(t, '/') == seq![t.take(0)] + split_on(t1, '/'));
        assert(t.take(0).len() == 0);
        assert(t1.len() > 0);
        assert(t1[0] == t[1]);
        assert(t[1] != '/');
        assert(t1.last() == t.last());
        assert(forall|k: int|
            0 <= k < t1.len() - 1 ==> !((#[trigger] t1[k]) == '/' && t1[k + 1] == '/')) by {
            assert(forall|k: int| 0 <= k < t1.len() ==> t1[k] == t[1 + k]);
        }
        lemma_split_all_nonempty(t1);
        lemma_parts_pointwise(split_on(t1, '/'));
        let parts = parts_of_segs(split_on(t, '/'));
        assert((seq![t.take(0)] + split_on(t1, '/'))[0] == t.take(0));
        assert((seq![t.take(0)] + split_on(t1, '/')).drop_first() =~= split_on(t1, '/'));
        assert(parts =~= parts_of_segs(split_on(t1, '/')));
        lemma_find_ch(t, '/');
        let cand = compile(p);
        assert(cand == seq![RoutePartView::Leader] + parts);
        assert(cand.len() == 1 + split_on(t1, '/').len());
        assert(extract_segs(p).len() == cand.len());
        assert(pat.len() == cand.len());
        assert(!extract_root(pat, p));
        lemma_walk_pointwise(pat, cand, false);
        assert forall|i: int|
            0 <= i < pat.len() implies match #[trigger] pat[i] {
            RoutePartView::PathComponent(s) => extract_segs(p)[i] == s,
            _ => true,
        } by {
            match pat[i] {
                RoutePartView::PathComponent(s) => {
                    assert(cand[i] == RoutePartView::PathComponent(s));
                    assert(i > 0) by {
                        if i == 0 {
                            assert(cand[0] == RoutePartView::Leader);
                        }
                    }
                    assert(cand[i] == parts[i - 1]);
                    assert(parts[i - 1] == seg_part(split_on(t1, '/')[i - 1]));
                    let seg = split_on(t1, '/')[i - 1];
                    assert(seg_part(seg) == RoutePartView::PathComponent(s));
                    assert(seg == s);
                    assert(extract_segs(p)[i] == split_on(t1, '/')[i - 1]);
                },
                _ => {},
            }
        }
    }
}

/// What trimming leaves never ends with the separator.
proof fn lemma_trim_no_trailing(p: Seq<char>)
    ensures
        trim_trailing(p, '/').len() > 0 ==> trim_trailing(p, '/').last() != '/',
    decreases p.len(),
{
    if p.len() > 0 && p.last() == '/' {
        lemma_trim_no_trailing(p.drop_last());
    }
}

/// Trimming trailing separators keeps a prefix of the string.
proof fn lemma_trim_is_prefix(p: Seq<char>, t: Seq<char>)
    requires
        t == trim_trailing(p, '/'),
    ensures
        t.len() <= p.len(),
        forall|i: int| 0 <= i < t.len() ==> t[i] == p[i],
    decreases p.len(),
{
    if p.len() > 0 && p.last() == '/' {
        lemma_trim_is_prefix(p.drop_last(), t);
        assert(forall|i: int| 0 <= i < p.drop_last().len() ==> p.drop_last()[i] == p[i]);
    }
}

/// The parameter names declared by a sequence of pattern segments: each
/// `:`-prefixed segment's name, leading colons removed, in order.
pub open spec fn params_of_segs(segs: Seq<Seq<char>>) -> Seq<Seq<char>>
    decreases segs.len(),
{
    if segs.len() == 0 {
        Seq::empty()
    } else {
        (if segs[0].len() > 0 && segs[0][0] == ':' {
            seq![trim_leading(segs[0], ':')]
        } else {
            Seq::<Seq<char>>::empty()
        }) + params_of_segs(segs.drop_first())
    }
}

/// Compiling keeps exactly the declared parameter names, in order.
proof fn lemma_param_names_of_parts(segs: Seq<Seq<char>>)
    ensures
        param_names(parts_of_segs(segs)) == params_of_segs(segs),
    decreases segs.len(),
{
    if segs.len() == 0 {
        assert(param_names(parts_of_segs(segs)) =~= params_of_segs(segs));
    } else {
        lemma_param_names_of_parts(segs.drop_first());
        let rest = parts_of_segs(segs.drop_first());
        if segs[0].len() == 0 {
            assert(Seq::<RoutePartView>::empty() + rest =~= rest);
        } else {
            let head = seg_part(segs[0]);
            assert((seq![head] + rest)[0] == head);
            assert((seq![head] + rest).drop_first() =~= rest);
            assert(param_names(seq![head] + rest) == (match head {
                RoutePartView::Param(n) => seq![n],
                _ => Seq::<Seq<char>>::empty(),
            }) + param_names(rest));
        }
    }
}

/// A pattern with `n` named segments compiles to exactly those `n`
/// parameter names, in declared left-to-right order; a pattern without a
/// slash compiles to the bare root and declares none.
pub proof fn lemma_compile_params(p: Seq<char>)
    ensures
        param_names(compile(p)) == (if find_ch(trim_trailing(p, '/'), '/') == trim_trailing(
            p,
            '/',
        ).len() {
            Seq::<Seq<char>>::empty()
        } else {
            params_of_segs(split_on(trim_trailing(p, '/'), '/'))
        }),
{
    let t = trim_trailing(p, '/');
    if find_ch(t, '/') == t.len() {
        assert(seq![RoutePartView::Leader].drop_first() =~= Seq::<RoutePartView>::empty());
        assert(param_names(Seq::<RoutePartView>::empty()) =~= Seq::<Seq<char>>::empty());
        assert(param_names(compile(p)) =~= Seq::<Seq<char>>::empty());
    } else {
        let parts = parts_of_segs(split_on(t, '/'));
        assert((seq![RoutePartView::Leader] + parts)[0] == RoutePartView::Leader);
        assert((seq![RoutePartView::Leader] + parts).drop_first() =~= parts);
        assert(param_names(compile(p)) == param_names(parts));
        lemma_param_names_of_parts(split_on(t, '/'));
    }
}

/// A dispatch whose matched chain never sets a response is answered with
/// the internal-server-error status: if every function of the matched
/// route's chain only ever returns a triple whose response is unset, the
/// application's response carries status 500.
pub proof fn lemma_unset_response_yields_500<
    S,
    T,
    F: Fn(Request, Option<Response>, Params, AppHandle<S>, T) -> HTTPResult<T>,
>(routes: Seq<Route<F>>, req: Request, app: AppHandle<S>, r: Response)
    requires
        app_response::<S, T, F>(routes, req, app, r),
        first_match(routes, req.method, req.path@) < routes.len(),
        !extract_fails(
            routes[first_match(routes, req.method, req.path@)].path_view(),
            req.path@,
        ),
        forall|
            i: int,
            args: (Request, Option<Response>, Params, AppHandle<S>, T),
            out: HTTPResult<T>,
        |
            0 <= i < routes[first_match(routes, req.method, req.path@)].chain().len()
                && #[trigger] call_ensures(
                routes[first_match(routes, req.method, req.path@)].chain()[i],
                args,
                out,
            ) ==> (out matches Ok(t3) && t3.1 is None),
    ensures
        r.status == 500,
{
    let k = first_match(routes, req.method, req.path@);
    let rt = routes[k];
    let fs = rt.chain();
    let pview = extracted(rt.path_view(), req.path@);
    lemma_route_chain_nonempty(rt);
    let rr = choose|rr: Result<Response, Error>|
        #[trigger] router_outcome::<S, T, F>(routes, req, app, rr) && mapped_response(rr, r);
    let st = choose|st: T| #[trigger] dispatch_outcome(rt, req, app, st, rr);
    let a0 = (req, None::<Response>, st);
    match rr {
        Ok(resp) => {
            let t = choose|t: (Request, Option<Response>, T)|
                #[trigger] chain_result(fs, pview, app, a0, Ok(t)) && t.1 == Some(resp);
            let outs = choose|outs: Seq<(Request, Option<Response>, T)>|
                {
                    &&& outs.len() == fs.len()
                    &&& #[trigger] prefix_runs(fs, pview, app, a0, outs)
                    &&& if fs.len() == 0 {
                        t == a0
                    } else {
                        t == outs.last()
                    }
                };
            let last = fs.len() - 1;
            assert(handler_step(fs[last], step_in(a0, outs, last), pview, app, Ok(outs[last])));
            let pc = choose|pc: Params|
                pc@ == pview && call_ensures(
                    fs[last],
                    (
                        step_in(a0, outs, last).0,
                        step_in(a0, outs, last).1,
                        pc,
                        app,
                        step_in(a0, outs, last).2,
                    ),
                    Ok(outs[last]),
                );
            assert(outs[last].1 is None);
            assert(false);
        },
        Err(e) => {
            if chain_result(fs, pview, app, a0, Err(e)) {
                let outs = choose|outs: Seq<(Request, Option<Response>, T)>|
                    {
                        &&& outs.len() < fs.len()
                        &&& #[trigger] prefix_runs(fs, pview, app, a0, outs)
                        &&& handler_step(
                            fs[outs.len() as int],
                            step_in(a0, outs, outs.len() as int),
                            pview,
                            app,
                            Err(e),
                        )
                    };
                let j = outs.len() as int;
                let pc = choose|pc: Params|
                    pc@ == pview && call_ensures(
                        fs[j],
                        (
                            step_in(a0, outs, j).0,
                            step_in(a0, outs, j).1,
                            pc,
                            app,
                            step_in(a0, outs, j).2,
                        ),
                        Err::<(Request, Option<Response>, T), Error>(e),
                    );
                assert(false);
            }
            assert(e matches Error::StatusCode(s, msg) && s == 500u16);
            assert(r.status == status_of_error(e));
        },
    }
}

} // verus!
