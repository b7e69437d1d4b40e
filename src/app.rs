//! An application: shared state, a router, the endpoints that its routes
//! name, and the chain of filters that wraps them. Applications compose by
//! mounting one under a path prefix of another.
use crate::pattern::{validate_pattern, pattern_outcome, pattern_valid, RouteError, MOUNT_REST};
use crate::router::{handlers_below, has_shape, RouteTarget, Router, RouterView, Target};
use crate::recognizer::{params_contents, params_entries, params_find, params_insert};
use crate::string_map::{pairs_map, pairs_view};
use route_recognizer::Params;
use vstd::prelude::*;
use vstd::string::*;

verus! {

/// The pattern under which a child application is mounted at `prefix`: the
/// prefix followed by a catch-all segment with the reserved name.
pub open spec fn mount_pattern(prefix: Seq<char>) -> Seq<char> {
    prefix + "/*"@ + MOUNT_REST@
}

/// The parameters that a mounted request carries: those of the outer match,
/// overlaid by those of the child's match, which win on a shared key.
pub open spec fn merged_params(
    outer: Map<Seq<char>, Seq<char>>,
    inner: Map<Seq<char>, Seq<char>>,
) -> Map<Seq<char>, Seq<char>> {
    outer.union_prefer_right(inner)
}

/// At a mount boundary, a parameter that the child's match captures has the
/// child's value, one that only the outer match captures keeps the outer
/// value, and no other parameter appears.
pub proof fn lemma_mount_merge(outer: Map<Seq<char>, Seq<char>>, inner: Map<Seq<char>, Seq<char>>)
    ensures
        forall|k: Seq<char>| #[trigger]
            inner.contains_key(k) ==> merged_params(outer, inner).contains_key(k)
                && merged_params(outer, inner)[k] == inner[k],
        forall|k: Seq<char>|
            outer.contains_key(k) && !inner.contains_key(k) ==> #[trigger] merged_params(
                outer,
                inner,
            ).contains_key(k) && merged_params(outer, inner)[k] == outer[k],
        merged_params(outer, inner).dom() == outer.dom().union(inner.dom()),
{
}

proof fn lemma_below_grows(v: RouterView, n: nat)
    requires
        v.all_handlers_below(n),
    ensures
        v.all_handlers_below(n + 1),
{
}

proof fn lemma_below_after_add(v: RouterView, m: Seq<char>, p: Seq<char>, h: usize)
    requires
        v.all_handlers_below(h as nat),
        v.after_add(m, p, h).0 is Ok,
    ensures
        v.after_add(m, p, h).1.all_handlers_below(h as nat + 1),
{
    let w = v.after_add(m, p, h).1;
    assert forall|k: Seq<char>| #[trigger] w.methods.contains_key(k) implies handlers_below(w.methods[k], h as nat + 1) by {
        if k != m {
            assert(v.methods.contains_key(k));
        } else {
            let rs = v.routes_for(m);
            assert forall|i: int| 0 <= i < w.methods[k].len() implies (#[trigger] w.methods[k][i]).1 < h as nat + 1 by {
                if i < rs.len() {
                    assert(w.methods[k][i] == rs[i]);
                }
            }
        }
    }
}

proof fn lemma_below_push_all(v: RouterView, p: Seq<char>, h: usize)
    requires
        v.all_handlers_below(h as nat),
    ensures
        (RouterView { methods: v.methods, all: v.all.push((p, h)) }).all_handlers_below(h as nat + 1),
{
    let w = RouterView { methods: v.methods, all: v.all.push((p, h)) };
    assert forall|i: int| 0 <= i < w.all.len() implies (#[trigger] w.all[i]).1 < h as nat + 1 by {
        if i < v.all.len() {
            assert(w.all[i] == v.all[i]);
        }
    }
    assert forall|k: Seq<char>| #[trigger] w.methods.contains_key(k) implies handlers_below(w.methods[k], h as nat + 1) by {
        assert(v.methods.contains_key(k));
    }
}

/// Endpoints of type `E`, filters of type `F` and shared state of type `S`,
/// with the routes that lead to the endpoints.
pub struct App<S, E, F> {
    state: S,
    routes: Router,
    endpoints: Vec<E>,
    filters: Vec<F>,
}

impl<S, E, F> App<S, E, F> {
    /// The router is well formed and its handler numbers index endpoints.
    pub closed spec fn wf(&self) -> bool {
        &&& self.routes.wf()
        &&& self.routes@.all_handlers_below(self.endpoints@.len())
    }

    /// The routes; their handler numbers index the endpoints.
    pub closed spec fn router(&self) -> RouterView {
        self.routes@
    }

    /// The endpoints, in registration order.
    pub closed spec fn endpoints(&self) -> Seq<E> {
        self.endpoints@
    }

    /// The filters, in registration order: the first wraps all the others.
    pub closed spec fn filters(&self) -> Seq<F> {
        self.filters@
    }

    pub closed spec fn state_spec(&self) -> S {
        self.state
    }

    /// An application with the given state, no routes and no filters.
    pub fn new(state: S) -> (r: App<S, E, F>)
        ensures
            r.wf(),
            r.state_spec() == state,
            r.router().methods == Map::<Seq<char>, Seq<(Seq<char>, usize)>>::empty(),
            r.router().all == Seq::<(Seq<char>, usize)>::empty(),
            r.endpoints() == Seq::<E>::empty(),
            r.filters() == Seq::<F>::empty(),
    {
        App { state, routes: Router::new(), endpoints: Vec::new(), filters: Vec::new() }
    }

    /// The shared state.
    pub fn state(&self) -> (r: &S)
        ensures
            *r == self.state_spec(),
    {
        &self.state
    }

    /// Appends a filter to the chain. Filters run in registration order, each
    /// wrapping those registered after it and, last, the endpoint.
    pub fn with(&mut self, filter: F)
        requires
            old(self).wf(),
        ensures
            final(self).wf(),
            final(self).filters() == old(self).filters().push(filter),
            final(self).endpoints() == old(self).endpoints(),
            final(self).router() == old(self).router(),
            final(self).state_spec() == old(self).state_spec(),
    {
        self.filters.push(filter);
    }

    /// Number of filters.
    pub fn filter_count(&self) -> (r: usize)
        ensures
            r == self.filters().len(),
    {
        self.filters.len()
    }

    /// The filter at position `i` of the chain.
    pub fn filter(&self, i: usize) -> (r: Option<&F>)
        ensures
            match r {
                Some(f) => i < self.filters().len() && *f == self.filters()[i as int],
                None => i >= self.filters().len(),
            },
    {
        if i < self.filters.len() {
            Some(&self.filters[i])
        } else {
            None
        }
    }

    /// The endpoint with handler number `id`.
    pub fn endpoint(&self, id: usize) -> (r: Option<&E>)
        ensures
            match r {
                Some(e) => id < self.endpoints().len() && *e == self.endpoints()[id as int],
                None => id >= self.endpoints().len(),
            },
    {
        if id < self.endpoints.len() {
            Some(&self.endpoints[id])
        } else {
            None
        }
    }

    /// Registers `ep` for method `method` at `pattern`. Its handler number is
    /// the number of endpoints before it. The router's refusals leave the
    /// application as it was.
    pub fn route(&mut self, method: &str, pattern: &str, ep: E) -> (r: Result<usize, RouteError>)
        requires
            old(self).wf(),
        ensures
            final(self).wf(),
            final(self).filters() == old(self).filters(),
            final(self).state_spec() == old(self).state_spec(),
            ({
                let (res, after) = old(self).router().after_add(
                    method@,
                    pattern@,
                    old(self).endpoints().len() as usize,
                );
                &&& final(self).router() == after
                &&& match res {
                    Ok(_) => r == Ok::<usize, RouteError>(old(self).endpoints().len() as usize)
                        && final(self).endpoints() == old(self).endpoints().push(ep),
                    Err(e) => r == Err::<usize, RouteError>(e) && final(self).endpoints()
                        == old(self).endpoints(),
                }
            }),
    {
        let id = self.endpoints.len();
        let ghost before = self.routes@;
        match self.routes.add(method, pattern, id) {
            Ok(()) => {
                proof {
                    lemma_below_grows(before, id as nat);
                    lemma_below_after_add(before, method@, pattern@, id);
                }
                self.endpoints.push(ep);
                Ok(id)
            },
            Err(e) => Err(e),
        }
    }

    /// Registers `ep` for every method at `pattern`; it serves a request only
    /// when the request's method has no match of its own.
    pub fn route_all(&mut self, pattern: &str, ep: E) -> (r: Result<usize, RouteError>)
        requires
            old(self).wf(),
        ensures
            final(self).wf(),
            final(self).filters() == old(self).filters(),
            final(self).state_spec() == old(self).state_spec(),
            ({
                let (res, after) = old(self).router().after_add_all(
                    pattern@,
                    old(self).endpoints().len() as usize,
                );
                &&& final(self).router() == after
                &&& match res {
                    Ok(_) => r == Ok::<usize, RouteError>(old(self).endpoints().len() as usize)
                        && final(self).endpoints() == old(self).endpoints().push(ep),
                    Err(e) => r == Err::<usize, RouteError>(e) && final(self).endpoints()
                        == old(self).endpoints(),
                }
            }),
    {
        let id = self.endpoints.len();
        let ghost before = self.routes@;
        match self.routes.add_all(pattern, id) {
            Ok(()) => {
                proof {
                    lemma_below_grows(before, id as nat);
                    lemma_below_push_all(before, pattern@, id);
                }
                self.endpoints.push(ep);
                Ok(id)
            },
            Err(e) => Err(e),
        }
    }

    /// Registers `adapter`, the endpoint that hands requests on to a child
    /// application, for every method at `mount_pattern(prefix)`. The prefix
    /// is checked as a user pattern first.
    pub fn mount(&mut self, prefix: &str, adapter: E) -> (r: Result<usize, RouteError>)
        requires
            old(self).wf(),
        ensures
            final(self).wf(),
            final(self).filters() == old(self).filters(),
            final(self).state_spec() == old(self).state_spec(),
            ({
                let p = mount_pattern(prefix@);
                let id = old(self).endpoints().len() as usize;
                let ok = pattern_outcome(prefix@) is Ok && pattern_valid(p) && !has_shape(
                    old(self).router().all,
                    p,
                );
                &&& pattern_outcome(prefix@) matches Err(e) ==> r == Err::<usize, RouteError>(e)
                &&& pattern_outcome(prefix@) is Ok && !pattern_valid(p) ==> r == Err::<usize, RouteError>(RouteError::InvalidPattern)
                &&& pattern_outcome(prefix@) is Ok && pattern_valid(p) && has_shape(old(self).router().all, p)
                    ==> r == Err::<usize, RouteError>(RouteError::Duplicate)
                &&& ok ==> r == Ok::<usize, RouteError>(id) && final(self).router() == (RouterView {
                    methods: old(self).router().methods,
                    all: old(self).router().all.push((p, id)),
                }) && final(self).endpoints() == old(self).endpoints().push(adapter)
                &&& !ok ==> final(self).router() == old(self).router() && final(self).endpoints()
                    == old(self).endpoints()
            }),
    {
        match validate_pattern(prefix) {
            Err(e) => return Err(e),
            Ok(()) => {},
        }
        let pattern = prefix.to_owned().concat("/*").concat(MOUNT_REST);
        let id = self.endpoints.len();
        let ghost before = self.routes@;
        match self.routes.add_mount_route(pattern.as_str(), id) {
            Ok(()) => {
                proof {
                    lemma_below_grows(before, id as nat);
                    lemma_below_push_all(before, pattern@, id);
                }
                self.endpoints.push(adapter);
                Ok(id)
            },
            Err(e) => Err(e),
        }
    }

    /// Resolves a request against the routes (see `Router::lookup`).
    pub fn lookup(&self, method: &str, path: &str) -> (r: RouteTarget)
        requires
            self.wf(),
        ensures
            (r.target, params_contents(r.params)) == self.router().lookup(method@, path@),
            r.target matches Target::Endpoint(h) ==> h < self.endpoints().len(),
    {
        self.routes.lookup(method, path)
    }

    /// Resolves a request that reached this application through a mount
    /// point: the rest of the path, captured under the reserved name by the
    /// outer match, is looked up here, and the child's captures are overlaid
    /// on the outer parameters. Without the rest capture there is no answer.
    pub fn mounted_lookup(&self, method: &str, outer: Params) -> (r: Option<RouteTarget>)
        requires
            self.wf(),
        ensures
            match r {
                Some(t) => {
                    let o = params_contents(outer);
                    let (target, inner) = self.router().lookup(method@, o[MOUNT_REST@]);
                    &&& o.contains_key(MOUNT_REST@)
                    &&& t.target == target
                    &&& params_contents(t.params) == merged_params(o, inner)
                    &&& (t.target matches Target::Endpoint(h) ==> h < self.endpoints().len())
                },
                None => !params_contents(outer).contains_key(MOUNT_REST@),
            },
    {
        match params_find(&outer, MOUNT_REST) {
            None => None,
            Some(rest) => {
                let inner = self.routes.lookup(method, rest.as_str());
                let entries = params_entries(&inner.params);
                let mut params = outer;
                let mut i: usize = 0;
                while i < entries.len()
                    invariant
                        i <= entries@.len(),
                        params_contents(params) == params_contents(outer).union_prefer_right(
                            pairs_map(pairs_view(entries@.subrange(0, i as int))),
                        ),
                    decreases entries@.len() - i,
                {
                    let e = &entries[i];
                    let ghost prev = pairs_view(entries@.subrange(0, i as int));
                    let ghost next = pairs_view(entries@.subrange(0, i + 1));
                    assert(next.drop_last() =~= prev);
                    params_insert(&mut params, e.0.clone(), e.1.clone());
                    assert(params_contents(params) =~= params_contents(outer).union_prefer_right(
                        pairs_map(next),
                    ));
                    i = i + 1;
                }
                assert(entries@.subrange(0, entries@.len() as int) =~= entries@);
                Some(RouteTarget { target: inner.target, params })
            },
        }
    }
}

} // verus!
