//! The router: one route table per method plus a table for every method, and
//! the lookup that resolves a `(method, path)` pair in four steps.
use crate::pattern::{
    pattern_outcome,
    pattern_valid,
    recognizer_pattern,
    recognizer_pattern_of,
    shape,
    shape_of,
    validate_pattern,
    RouteError,
    UNNAMED_REST,
};
use crate::recognizer::{
    params_contents,
    params_entries,
    params_find,
    params_insert,
    params_new,
    recognized,
    recognizer_add,
    recognizer_match,
    recognizer_new,
    recognizer_routes,
};
use crate::string_map::{pairs_map, pairs_view};
use route_recognizer::Params;
use route_recognizer::Router as Recognizer;
use vstd::prelude::*;

verus! {

/// The routes as the recognizer is given them.
pub open spec fn recognizer_view(routes: Seq<(Seq<char>, usize)>) -> Seq<(Seq<char>, usize)> {
    routes.map_values(|r: (Seq<char>, usize)| (recognizer_pattern(r.0), r.1))
}

/// The captures with the one of a bare catch-all moved to the empty name.
pub open spec fn unnamed_renamed(m: Map<Seq<char>, Seq<char>>) -> Map<Seq<char>, Seq<char>> {
    if m.contains_key(UNNAMED_REST@) {
        m.remove(UNNAMED_REST@).insert(Seq::empty(), m[UNNAMED_REST@])
    } else {
        m
    }
}

/// What a table built from `routes` matches for `path`: the handler and the
/// captured parameters, where a bare trailing `*` captures under the empty
/// name. A path holding a NUL character matches nothing.
pub open spec fn matched(routes: Seq<(Seq<char>, usize)>, path: Seq<char>) -> Option<
    (usize, Map<Seq<char>, Seq<char>>),
> {
    if path.contains('\0') {
        None
    } else {
        match recognized(recognizer_view(routes), path) {
            Some(found) => Some((found.0, unnamed_renamed(found.1))),
            None => None,
        }
    }
}

/// Relies on `str::contains` with a `char` pattern.
#[verifier::external_body]
fn contains_char(s: &str, c: char) -> (r: bool)
    ensures
        r == s@.contains(c),
{
    s.contains(c)
}

/// Some route of `routes` has a pattern of the same shape as `p` (see
/// `shape`).
pub open spec fn has_shape(routes: Seq<(Seq<char>, usize)>, p: Seq<char>) -> bool {
    exists|i: int| 0 <= i < routes.len() && shape(#[trigger] routes[i].0) == shape(p)
}

/// Whether two character vectors are equal.
fn same_chars(a: &Vec<char>, b: &Vec<char>) -> (r: bool)
    ensures
        r == (a@ == b@),
{
    if a.len() != b.len() {
        return false;
    }
    let mut i: usize = 0;
    while i < a.len()
        invariant
            a@.len() == b@.len(),
            i <= a@.len(),
            forall|j: int| 0 <= j < i ==> a@[j] == b@[j],
        decreases a@.len() - i,
    {
        if a[i] != b[i] {
            return false;
        }
        i = i + 1;
    }
    assert(a@ =~= b@);
    true
}

/// An ordered list of `(pattern, handler)` routes and the recognizer built
/// from it.
pub struct RouteTable {
    recognizer: Recognizer<usize>,
    routes: Vec<(String, usize)>,
    shapes: Vec<Vec<char>>,
}

impl View for RouteTable {
    type V = Seq<(Seq<char>, usize)>;

    closed spec fn view(&self) -> Seq<(Seq<char>, usize)> {
        self.routes@.map_values(|r: (String, usize)| (r.0@, r.1))
    }
}

impl RouteTable {
    pub closed spec fn wf(&self) -> bool {
        &&& recognizer_routes(self.recognizer) == recognizer_view(self@)
        &&& self.shapes@.len() == self.routes@.len()
        &&& forall|i: int| 0 <= i < self.shapes@.len() ==> #[trigger] self.shapes@[i]@ == shape(self.routes@[i].0@)
    }

    /// A table without routes.
    pub fn new() -> (r: RouteTable)
        ensures
            r.wf(),
            r@ == Seq::<(Seq<char>, usize)>::empty(),
    {
        let r = RouteTable { recognizer: recognizer_new(), routes: Vec::new(), shapes: Vec::new() };
        assert(r@ =~= Seq::<(Seq<char>, usize)>::empty());
        assert(recognizer_view(r@) =~= Seq::<(Seq<char>, usize)>::empty());
        r
    }

    /// Whether a route with a pattern of the same shape is in the table.
    pub fn contains_shape(&self, pattern: &str) -> (r: bool)
        requires
            self.wf(),
        ensures
            r == has_shape(self@, pattern@),
    {
        let target = shape_of(pattern);
        let mut i: usize = 0;
        while i < self.shapes.len()
            invariant
                self.wf(),
                target@ == shape(pattern@),
                i <= self.shapes@.len(),
                forall|j: int| 0 <= j < i ==> shape(#[trigger] self@[j].0) != shape(pattern@),
            decreases self.shapes@.len() - i,
        {
            if same_chars(&self.shapes[i], &target) {
                assert(shape(self@[i as int].0) == shape(pattern@));
                return true;
            }
            i = i + 1;
        }
        false
    }

    /// Appends a route.
    pub fn add(&mut self, pattern: &str, handler: usize)
        requires
            old(self).wf(),
            pattern_valid(pattern@),
        ensures
            final(self).wf(),
            final(self)@ == old(self)@.push((pattern@, handler)),
    {
        let given = recognizer_pattern_of(pattern);
        recognizer_add(&mut self.recognizer, given.as_str(), handler);
        self.routes.push((pattern.to_owned(), handler));
        self.shapes.push(shape_of(pattern));
        assert(self@ =~= old(self)@.push((pattern@, handler)));
        assert(recognizer_view(self@) =~= recognizer_view(old(self)@).push((given@, handler)));
    }

    /// Matches a path against the table.
    pub fn recognize(&self, path: &str) -> (r: Option<(usize, Params)>)
        requires
            self.wf(),
            !path@.contains('\0'),
        ensures
            match r {
                Some(found) => matched(self@, path@) == Some((found.0, params_contents(found.1)))
                    && exists|i: int| 0 <= i < self@.len() && #[trigger] self@[i].1 == found.0,
                None => matched(self@, path@) is None,
            },
    {
        match recognizer_match(&self.recognizer, path) {
            None => None,
            Some(found) => {
                let (h, ps) = found;
                proof {
                    let rv = recognizer_view(self@);
                    let i = choose|i: int| 0 <= i < rv.len() && #[trigger] rv[i].1 == h;
                    assert(self@[i].1 == h);
                }
                match params_find(&ps, UNNAMED_REST) {
                    None => Some((h, ps)),
                    Some(v) => {
                        let entries = params_entries(&ps);
                        let key = UNNAMED_REST.to_owned();
                        let mut out = params_new();
                        let mut i: usize = 0;
                        while i < entries.len()
                            invariant
                                key@ == UNNAMED_REST@,
                                i <= entries@.len(),
                                params_contents(out) == pairs_map(
                                    pairs_view(entries@.subrange(0, i as int)),
                                ).remove(UNNAMED_REST@),
                            decreases entries@.len() - i,
                        {
                            let e = &entries[i];
                            let ghost prev = pairs_view(entries@.subrange(0, i as int));
                            let ghost next = pairs_view(entries@.subrange(0, i + 1));
                            assert(next.drop_last() =~= prev);
                            if !(e.0 == key) {
                                params_insert(&mut out, e.0.clone(), e.1.clone());
                            }
                            assert(params_contents(out) =~= pairs_map(next).remove(UNNAMED_REST@));
                            i = i + 1;
                        }
                        assert(entries@.subrange(0, entries@.len() as int) =~= entries@);
                        params_insert(&mut out, String::new(), v);
                        assert(params_contents(out) =~= unnamed_renamed(params_contents(ps)));
                        Some((h, out))
                    },
                }
            },
        }
    }
}

/// Where a lookup sends a request.
#[derive(Debug, Clone, Copy, PartialEq, Eq, Structural)]
pub enum Target {
    /// The endpoint registered under this handler number.
    Endpoint(usize),
    /// The path matches only under other methods.
    MethodNotAllowed,
    /// The path matches nothing.
    NotFound,
}

/// The result of a lookup: where the request goes and the parameters that
/// the path captured.
pub struct RouteTarget {
    pub target: Target,
    pub params: Params,
}

/// The routes of a router: those of each method, and those for every method.
pub struct RouterView {
    pub methods: Map<Seq<char>, Seq<(Seq<char>, usize)>>,
    pub all: Seq<(Seq<char>, usize)>,
}

/// Every handler number in `routes` is below `n`.
pub open spec fn handlers_below(routes: Seq<(Seq<char>, usize)>, n: nat) -> bool {
    forall|i: int| 0 <= i < routes.len() ==> (#[trigger] routes[i]).1 < n
}

impl RouterView {
    /// Every handler number of every table is below `n`.
    pub open spec fn all_handlers_below(self, n: nat) -> bool {
        &&& handlers_below(self.all, n)
        &&& forall|m: Seq<char>| #[trigger] self.methods.contains_key(m) ==> handlers_below(self.methods[m], n)
    }

    /// The routes registered for method `m`.
    pub open spec fn routes_for(self, m: Seq<char>) -> Seq<(Seq<char>, usize)> {
        if self.methods.contains_key(m) {
            self.methods[m]
        } else {
            Seq::empty()
        }
    }

    /// The path matches under the table of method `m`.
    pub open spec fn method_match(self, m: Seq<char>, path: Seq<char>) -> Option<
        (usize, Map<Seq<char>, Seq<char>>),
    > {
        if self.methods.contains_key(m) {
            matched(self.methods[m], path)
        } else {
            None
        }
    }

    /// The path matches under the table of some method other than `m`.
    pub open spec fn matches_elsewhere(self, m: Seq<char>, path: Seq<char>) -> bool {
        exists|m2: Seq<char>| #[trigger]
            self.methods.contains_key(m2) && m2 != m && matched(self.methods[m2], path) is Some
    }

    /// What a lookup of `(m, path)` answers: "not found" for a path holding
    /// a NUL character; otherwise, in order of precedence, the method's own
    /// table, the table for every method, a method that is not
    /// allowed, nothing found.
    pub open spec fn lookup(self, m: Seq<char>, path: Seq<char>) -> (
        Target,
        Map<Seq<char>, Seq<char>>,
    ) {
        if path.contains('\0') {
            (Target::NotFound, Map::empty())
        } else {
            match self.method_match(m, path) {
                Some(found) => (Target::Endpoint(found.0), found.1),
                None => self.fallback(m, path),
            }
        }
    }

    /// What a lookup answers when the method's own table has no match.
    pub open spec fn fallback(self, m: Seq<char>, path: Seq<char>) -> (
        Target,
        Map<Seq<char>, Seq<char>>,
    ) {
        match matched(self.all, path) {
            Some(found) => (Target::Endpoint(found.0), found.1),
            None => if self.matches_elsewhere(m, path) {
                (Target::MethodNotAllowed, Map::empty())
            } else {
                (Target::NotFound, Map::empty())
            },
        }
    }

    /// What registering `(m, p)` answers and the routes after it.
    pub open spec fn after_add(self, m: Seq<char>, p: Seq<char>, h: usize) -> (
        Result<(), RouteError>,
        RouterView,
    ) {
        if pattern_outcome(p) is Err {
            (pattern_outcome(p), self)
        } else if has_shape(self.routes_for(m), p) {
            (Err(RouteError::Duplicate), self)
        } else {
            (Ok(()), RouterView { methods: self.methods.insert(m, self.routes_for(m).push((p, h))), all: self.all })
        }
    }

    /// What registering `p` for every method answers and the routes after it.
    pub open spec fn after_add_all(self, p: Seq<char>, h: usize) -> (
        Result<(), RouteError>,
        RouterView,
    ) {
        if pattern_outcome(p) is Err {
            (pattern_outcome(p), self)
        } else if has_shape(self.all, p) {
            (Err(RouteError::Duplicate), self)
        } else {
            (Ok(()), RouterView { methods: self.methods, all: self.all.push((p, h)) })
        }
    }
}

/// A path that matches under the queried method's own table resolves to that
/// table's endpoint and captures; a lookup answers with the method's own
/// table exactly when the path matches there.
pub proof fn lemma_method_table_first(v: RouterView, m: Seq<char>, path: Seq<char>)
    ensures
        v.method_match(m, path) matches Some(found) ==> v.lookup(m, path) == (
            Target::Endpoint(found.0),
            found.1,
        ),
        v.method_match(m, path) is None ==> v.lookup(m, path) == v.fallback(m, path),
{
}

/// Without a match in the method's own table, a match in the table for every
/// method gives that endpoint and its captures, whatever the method.
pub proof fn lemma_all_table_fallback(v: RouterView, m: Seq<char>, path: Seq<char>)
    requires
        v.method_match(m, path) is None,
        matched(v.all, path) is Some,
    ensures
        matched(v.all, path) matches Some(found) ==> v.lookup(m, path) == (
            Target::Endpoint(found.0),
            found.1,
        ),
{
}

/// A path that matches only under other methods gives "method not allowed"
/// with no parameters.
pub proof fn lemma_method_not_allowed(v: RouterView, m: Seq<char>, path: Seq<char>)
    requires
        v.method_match(m, path) is None,
        matched(v.all, path) is None,
        v.matches_elsewhere(m, path),
    ensures
        v.lookup(m, path) == (Target::MethodNotAllowed, Map::<Seq<char>, Seq<char>>::empty()),
{
}

/// A path that matches under no table gives "not found" with no parameters.
pub proof fn lemma_not_found(v: RouterView, m: Seq<char>, path: Seq<char>)
    requires
        forall|m2: Seq<char>| #[trigger] v.methods.contains_key(m2) ==> matched(v.methods[m2], path) is None,
        matched(v.all, path) is None,
    ensures
        v.lookup(m, path) == (Target::NotFound, Map::<Seq<char>, Seq<char>>::empty()),
{
}

/// Once `(m, p)` is registered, registering the same method and pattern
/// again is refused and leaves the routes as they are.
pub proof fn lemma_duplicate_refused(v: RouterView, m: Seq<char>, p: Seq<char>, h1: usize, h2: usize)
    requires
        v.after_add(m, p, h1).0 is Ok,
    ensures
        v.after_add(m, p, h1).1.after_add(m, p, h2) == (
            Err::<(), RouteError>(RouteError::Duplicate),
            v.after_add(m, p, h1).1,
        ),
{
    let v2 = v.after_add(m, p, h1).1;
    let rs = v2.routes_for(m);
    assert(rs[rs.len() - 1].0 == p);
}

/// Once `p` is registered for every method, registering it again for every
/// method is refused and leaves the routes as they are.
pub proof fn lemma_duplicate_all_refused(v: RouterView, p: Seq<char>, h1: usize, h2: usize)
    requires
        v.after_add_all(p, h1).0 is Ok,
    ensures
        v.after_add_all(p, h1).1.after_add_all(p, h2) == (
            Err::<(), RouteError>(RouteError::Duplicate),
            v.after_add_all(p, h1).1,
        ),
{
    let v2 = v.after_add_all(p, h1).1;
    assert(v2.all[v2.all.len() - 1].0 == p);
}

/// Routes requests by method and path.
pub struct Router {
    methods: Vec<(String, RouteTable)>,
    all: RouteTable,
    tables: Ghost<Map<Seq<char>, Seq<(Seq<char>, usize)>>>,
}

impl View for Router {
    type V = RouterView;

    closed spec fn view(&self) -> RouterView {
        RouterView { methods: self.tables@, all: self.all@ }
    }
}

impl Router {
    /// Each method has one table, every table is well formed, and the view
    /// holds exactly the tables.
    pub closed spec fn wf(&self) -> bool {
        &&& self.all.wf()
        &&& forall|i: int, j: int|
            0 <= i < j < self.methods@.len() ==> #[trigger] self.methods@[i].0@
                != #[trigger] self.methods@[j].0@
        &&& forall|i: int|
            0 <= i < self.methods@.len() ==> (#[trigger] self.methods@[i]).1.wf()
                && self.tables@.contains_key(self.methods@[i].0@) && self.tables@[self.methods@[i].0@]
                == self.methods@[i].1@
        &&& forall|k: Seq<char>|
            self.tables@.contains_key(k) ==> exists|i: int|
                0 <= i < self.methods@.len() && #[trigger] self.methods@[i].0@ == k
    }

    /// A router without routes.
    pub fn new() -> (r: Router)
        ensures
            r.wf(),
            r@.methods == Map::<Seq<char>, Seq<(Seq<char>, usize)>>::empty(),
            r@.all == Seq::<(Seq<char>, usize)>::empty(),
    {
        Router { methods: Vec::new(), all: RouteTable::new(), tables: Ghost(Map::empty()) }
    }

    /// Position of the table of method `m`, if it has one.
    fn method_index(&self, m: &String) -> (r: Option<usize>)
        requires
            self.wf(),
        ensures
            match r {
                Some(i) => i < self.methods@.len() && self.methods@[i as int].0@ == m@
                    && self@.methods.contains_key(m@) && self@.methods[m@] == self.methods@[i as int].1@,
                None => !self@.methods.contains_key(m@),
            },
    {
        let mut i: usize = 0;
        while i < self.methods.len()
            invariant
                self.wf(),
                i <= self.methods@.len(),
                forall|j: int| 0 <= j < i ==> #[trigger] self.methods@[j].0@ != m@,
            decreases self.methods@.len() - i,
        {
            if self.methods[i].0 == *m {
                return Some(i);
            }
            i = i + 1;
        }
        None
    }

    /// Registers `handler` for requests of method `method` whose path matches
    /// `pattern`. An invalid pattern, a capture named like the mount
    /// capture, or a pattern of the same shape as one already registered for
    /// the method (it would match the same paths) is refused.
    pub fn add(&mut self, method: &str, pattern: &str, handler: usize) -> (r: Result<(), RouteError>)
        requires
            old(self).wf(),
        ensures
            final(self).wf(),
            (r, final(self)@) == old(self)@.after_add(method@, pattern@, handler),
    {
        match validate_pattern(pattern) {
            Err(e) => return Err(e),
            Ok(()) => {},
        }
        let m = method.to_owned();
        let ghost before = self.methods@;
        let ghost mv = m@;
        let ghost pv = pattern@;
        match self.method_index(&m) {
            Some(i) => {
                if self.methods[i].1.contains_shape(pattern) {
                    return Err(RouteError::Duplicate);
                }
                let mut entry = self.methods.remove(i);
                entry.1.add(pattern, handler);
                self.methods.insert(i, entry);
                let ghost newt = self.methods@[i as int].1@;
                self.tables = Ghost(self.tables@.insert(mv, newt));
                proof {
                    assert forall|j: int| 0 <= j < self.methods@.len() && j != i implies #[trigger] self.methods@[j]
                        == before[j] by {}
                    assert forall|k: Seq<char>| self.tables@.contains_key(k) implies exists|j: int|
                        0 <= j < self.methods@.len() && #[trigger] self.methods@[j].0@ == k by {
                        if k != mv {
                            let j = choose|j: int| 0 <= j < before.len() && before[j].0@ == k;
                            assert(self.methods@[j].0@ == k);
                        } else {
                            assert(self.methods@[i as int].0@ == k);
                        }
                    }
                }
            },
            None => {
                let mut table = RouteTable::new();
                table.add(pattern, handler);
                self.methods.push((m, table));
                let ghost newt = self.methods@[before.len() as int].1@;
                self.tables = Ghost(self.tables@.insert(mv, newt));
                proof {
                    assert(newt =~= Seq::<(Seq<char>, usize)>::empty().push((pv, handler)));
                    assert forall|j: int| 0 <= j < before.len() implies #[trigger] before[j].0@ != mv by {
                        assert(old(self).tables@.contains_key(before[j].0@));
                    }
                    assert forall|k: Seq<char>| self.tables@.contains_key(k) implies exists|j: int|
                        0 <= j < self.methods@.len() && #[trigger] self.methods@[j].0@ == k by {
                        if k != mv {
                            let j = choose|j: int| 0 <= j < before.len() && before[j].0@ == k;
                            assert(self.methods@[j].0@ == k);
                        } else {
                            assert(self.methods@[before.len() as int].0@ == k);
                        }
                    }
                }
            },
        }
        Ok(())
    }

    /// Registers `handler` for requests of any method whose path matches
    /// `pattern`; it is consulted only when the method's own table has no
    /// match. Refuses the same patterns as `add`.
    pub fn add_all(&mut self, pattern: &str, handler: usize) -> (r: Result<(), RouteError>)
        requires
            old(self).wf(),
        ensures
            final(self).wf(),
            (r, final(self)@) == old(self)@.after_add_all(pattern@, handler),
    {
        match validate_pattern(pattern) {
            Err(e) => return Err(e),
            Ok(()) => {},
        }
        if self.all.contains_shape(pattern) {
            return Err(RouteError::Duplicate);
        }
        self.all.add(pattern, handler);
        Ok(())
    }

    /// Registers a mount point: `pattern` for every method, with no check of
    /// the capture names, so that it may use the one reserved for mounts.
    pub(crate) fn add_mount_route(&mut self, pattern: &str, handler: usize) -> (r: Result<(), RouteError>)
        requires
            old(self).wf(),
        ensures
            final(self).wf(),
            !pattern_valid(pattern@) ==> r == Err::<(), RouteError>(RouteError::InvalidPattern) && final(self)@ == old(self)@,
            pattern_valid(pattern@) && has_shape(old(self)@.all, pattern@) ==> r == Err::<(), RouteError>(RouteError::Duplicate) && final(self)@ == old(self)@,
            pattern_valid(pattern@) && !has_shape(old(self)@.all, pattern@) ==> r == Ok::<(), RouteError>(()) && final(self)@ == (RouterView { methods: old(self)@.methods, all: old(self)@.all.push((pattern@, handler)) }),
    {
        let p = crate::pattern::chars_of(pattern);
        if !crate::pattern::valid_chars(&p) {
            return Err(RouteError::InvalidPattern);
        }
        if self.all.contains_shape(pattern) {
            return Err(RouteError::Duplicate);
        }
        self.all.add(pattern, handler);
        Ok(())
    }

    /// Resolves a request: the endpoint of the method's own table and its
    /// captures if the path matches there; else the endpoint of the table for
    /// every method and its captures; else "method not allowed" if the path
    /// matches under another method; else "not found". The last two carry no
    /// parameters.
    pub fn lookup(&self, method: &str, path: &str) -> (r: RouteTarget)
        requires
            self.wf(),
        ensures
            (r.target, params_contents(r.params)) == self@.lookup(method@, path@),
            forall|n: nat| #[trigger] self@.all_handlers_below(n) ==> (r.target matches Target::Endpoint(h) ==> h < n),
    {
        if contains_char(path, '\0') {
            return RouteTarget { target: Target::NotFound, params: params_new() };
        }
        let m = method.to_owned();
        match self.method_index(&m) {
            Some(i) => match self.methods[i].1.recognize(path) {
                Some(found) => {
                    let (h, params) = found;
                    return RouteTarget { target: Target::Endpoint(h), params };
                },
                None => {},
            },
            None => {},
        }
        match self.all.recognize(path) {
            Some(found) => {
                let (h, params) = found;
                return RouteTarget { target: Target::Endpoint(h), params };
            },
            None => {},
        }
        let mut i: usize = 0;
        while i < self.methods.len()
            invariant
                self.wf(),
                m@ == method@,
                self@.method_match(method@, path@) is None,
                !path@.contains('\0'),
                matched(self@.all, path@) is None,
                i <= self.methods@.len(),
                forall|j: int|
                    0 <= j < i ==> #[trigger] self.methods@[j].0@ == m@ || matched(
                        self.methods@[j].1@,
                        path@,
                    ) is None,
            decreases self.methods@.len() - i,
        {
            if !(self.methods[i].0 == m) && self.methods[i].1.recognize(path).is_some() {
                proof {
                    let m2 = self.methods@[i as int].0@;
                    assert(self@.methods.contains_key(m2));
                    assert(self@.matches_elsewhere(method@, path@));
                }
                return RouteTarget { target: Target::MethodNotAllowed, params: params_new() };
            }
            i = i + 1;
        }
        proof {
            assert forall|m2: Seq<char>| #[trigger]
                self@.methods.contains_key(m2) && m2 != method@ implies matched(self@.methods[m2], path@) is None by {
                let j = choose|j: int| 0 <= j < self.methods@.len() && #[trigger] self.methods@[j].0@ == m2;
                assert(self.methods@[j].0@ == m2);
            }
        }
        RouteTarget { target: Target::NotFound, params: params_new() }
    }
}

} // verus!
