use vstd::prelude::*;
use crate::error::Error;
use std::sync::Arc;
use route_recognizer::Router as Recognizer;
use crate::request::{Method, SapperRequest, law_same_method_is_equality, method_eq, same_method};
use crate::response::SapperResponse;
use crate::chain::{Chain, GlobalInit, SAppWrapper, SHandler, chain_outcome, opt_deref, run_chain};

verus! {

/// A module of the application: its own middleware around each of its
/// handlers, and the routes it serves.
pub trait SModule<E, H> {
    /// What the module's `before` promises of one call: on request `pre`
    /// it may end as `r`, leaving the request as `post`.
    /// An implementation that promises nothing keeps the default.
    open spec fn before_rel(&self, pre: SapperRequest<E>, post: SapperRequest<E>, r: Result<(), Error>) -> bool {
        true
    }

    /// What the module's `after` promises of one call: on request `req` it
    /// may end as `r`, turning the response `pre` into `post`.
    /// An implementation that promises nothing keeps the default.
    open spec fn after_rel(&self, req: SapperRequest<E>, pre: SapperResponse, post: SapperResponse, r: Result<(), Error>) -> bool {
        true
    }

    /// What the module's `router` promises of one call: it may end as `r`,
    /// turning the route list `pre` into `post`.
    /// An implementation that promises nothing keeps the default.
    open spec fn declares(&self, pre: SRouter<H>, post: SRouter<H>, r: Result<(), Error>) -> bool {
        true
    }

    /// Runs before the module's handlers.
    fn before(&self, req: &mut SapperRequest<E>) -> (r: Result<(), Error>)
        ensures
            self.before_rel(*old(req), *final(req), r),
    ;

    /// Runs after the module's handlers, on their response.
    fn after(&self, req: &SapperRequest<E>, res: &mut SapperResponse) -> (r: Result<(), Error>)
        ensures
            self.after_rel(*req, *old(res), *final(res), r),
    ;

    /// Adds the module's routes to `router`.
    fn router(&self, router: &mut SRouter<H>) -> (r: Result<(), Error>)
        ensures
            self.declares(*old(router), *final(router), r),
    ;
}

/// The routes one module declares: a method, a path and a handler each, in
/// the order they were added.
pub struct SRouter<H> {
    pub routes: Vec<(Method, String, H)>,
}

impl<H> SRouter<H> {
    pub fn new() -> (r: SRouter<H>)
        ensures
            r.routes@.len() == 0,
    {
        SRouter { routes: Vec::new() }
    }

    /// Declares that `handler` answers `method` requests for `glob`.
    pub fn route(&mut self, method: Method, glob: &str, handler: H)
        ensures
            final(self).routes@.len() == old(self).routes@.len() + 1,
            final(self).routes@.take(old(self).routes@.len() as int) == old(self).routes@,
            final(self).routes@.last().0 == method,
            final(self).routes@.last().1@ == glob@,
            final(self).routes@.last().2 == handler,
    {
        self.routes.push((method, glob.to_owned(), handler));
        assert(self.routes@.take(old(self).routes@.len() as int) =~= old(self).routes@);
    }

    /// Hands over the declared routes, in the order they were added.
    pub fn into_router(self) -> (r: Vec<(Method, String, H)>)
        ensures
            r@ == self.routes@,
    {
        self.routes
    }
}

} // verus!

verus! {

/// The route recognizer of the `route-recognizer` crate, carried through
/// as it is.
#[verifier::external_type_specification]
#[verifier::external_body]
#[verifier::reject_recursive_types(T)]
pub struct ExRecognizer<T>(Recognizer<T>);

/// The patterns a recognizer was given, each with the number it stands
/// for, in the order they were added.
pub uninterp spec fn recognizer_patterns(r: Recognizer<usize>) -> Seq<(Seq<char>, usize)>;

/// What a recognizer that was given `patterns` finds for `path`: the
/// number of the pattern it picks, with the parameters it read from the
/// path, ordered by name; `None` where no pattern matches.
pub uninterp spec fn recognition(patterns: Seq<(Seq<char>, usize)>, path: Seq<char>) -> Option<(usize, Seq<(Seq<char>, Seq<char>)>)>;

/// Text of ASCII characters other than NUL.
pub open spec fn plain_text(s: Seq<char>) -> bool {
    forall|i: int| 0 <= i < s.len() ==> '\0' < #[trigger] s[i] <= '\u{7f}'
}

/// Text without a NUL character.
pub open spec fn no_nul(s: Seq<char>) -> bool {
    forall|i: int| 0 <= i < s.len() ==> #[trigger] s[i] != '\0'
}

/// Name and value pairs by their text.
pub open spec fn pairs_view(v: Seq<(String, String)>) -> Seq<(Seq<char>, Seq<char>)> {
    v.map_values(|p: (String, String)| (p.0@, p.1@))
}

/// A recognizer's answer by its text.
pub open spec fn found_view(o: Option<(usize, Vec<(String, String)>)>) -> Option<(usize, Seq<(Seq<char>, Seq<char>)>)> {
    match o {
        Some((i, ps)) => Some((i, pairs_view(ps@))),
        None => None,
    }
}

/// A recognizer that has been given no pattern
/// (`route_recognizer::Router::new`).
#[verifier::external_body]
fn new_recognizer() -> (r: Recognizer<usize>)
    ensures
        recognizer_patterns(r) == Seq::<(Seq<char>, usize)>::empty(),
{
    Recognizer::new()
}

/// Gives a recognizer one more pattern, standing for `index`
/// (`route_recognizer::Router::add`). A NUL character in the pattern is
/// left out: the crate's character classes subtract one from its code.
#[verifier::external_body]
fn recognizer_add(r: &mut Recognizer<usize>, pattern: &str, index: usize)
    requires
        no_nul(pattern@),
    ensures
        recognizer_patterns(*final(r)) == recognizer_patterns(*old(r)).push((pattern@, index)),
{
    r.add(pattern, index)
}

/// Finds the pattern a path matches (`route_recognizer::Router::recognize`),
/// with the parameters read from it, ordered by name. The number it gives
/// back is one the recognizer was given. Paths are taken as ASCII without
/// NUL: the crate cuts captured parameters at character counts, which are
/// byte offsets only there, and subtracts one from each character's code.
#[verifier::external_body]
fn recognizer_find(r: &Recognizer<usize>, path: &str) -> (res: Option<(usize, Vec<(String, String)>)>)
    requires
        plain_text(path@),
    ensures
        found_view(res) == recognition(recognizer_patterns(*r), path@),
        res matches Some((i, _)) ==> exists|j: int|
            0 <= j < recognizer_patterns(*r).len() && (#[trigger] recognizer_patterns(*r)[j]).1 == i,
{
    match r.recognize(path) {
        Ok(m) => Some((*m.handler, m.params.iter().map(|(k, v)| (k.to_string(), v.to_string())).collect())),
        Err(_) => None,
    }
}

/// One entry of the application's route table: the method and path
/// pattern it answers, its handler, the module that declared it, and the
/// application wrapper and global init that were in place when the module
/// was added.
pub struct Route<I, W, M, H> {
    pub method: Method,
    pub glob: String,
    pub handler: H,
    pub module: Arc<M>,
    pub wrapper: Option<Arc<W>>,
    pub init: Option<Arc<I>>,
}

/// The recognizer of one method: it holds the patterns of the routes for
/// that method.
pub struct MethodTable {
    pub method: Method,
    pub recognizer: Recognizer<usize>,
}

/// The patterns of the routes for `method`, each with its place in the
/// table, in the order they were added.
pub open spec fn method_patterns<I, W, M, H>(routes: Seq<Route<I, W, M, H>>, method: Method) -> Seq<(Seq<char>, usize)>
    decreases routes.len(),
{
    if routes.len() == 0 {
        Seq::<(Seq<char>, usize)>::empty()
    } else {
        let rest = method_patterns(routes.drop_last(), method);
        if same_method(routes.last().method, method) {
            rest.push((routes.last().glob@, (routes.len() - 1) as usize))
        } else {
            rest
        }
    }
}

/// The route a request for `path` with `method` goes to, with the
/// parameters read from the path: what the recognizer of the method's
/// routes finds, where the method has routes and the path is plain ASCII.
pub open spec fn lookup<I, W, M, H>(routes: Seq<Route<I, W, M, H>>, method: Method, path: Seq<char>) -> Option<(usize, Seq<(Seq<char>, Seq<char>)>)> {
    if plain_text(path) && method_patterns(routes, method).len() > 0 {
        recognition(method_patterns(routes, method), path)
    } else {
        None
    }
}

/// `same_method` relates methods that are one method.
pub proof fn lemma_same_method_classes(a: Method, b: Method, x: Method)
    requires
        same_method(a, b),
    ensures
        same_method(x, a) == same_method(x, b),
        same_method(b, a),
{
}

/// Methods that are one method have the same routes.
pub proof fn lemma_method_patterns_same<I, W, M, H>(routes: Seq<Route<I, W, M, H>>, a: Method, b: Method)
    requires
        same_method(a, b),
    ensures
        method_patterns(routes, a) == method_patterns(routes, b),
    decreases routes.len(),
{
    if routes.len() > 0 {
        lemma_same_method_classes(a, b, routes.last().method);
        lemma_method_patterns_same(routes.drop_last(), a, b);
    }
}

/// Each pattern of a method's routes is the path of a route for that
/// method, at the place it gives; a method with a route has patterns.
pub proof fn lemma_method_patterns_places<I, W, M, H>(routes: Seq<Route<I, W, M, H>>, method: Method)
    requires
        routes.len() <= usize::MAX,
    ensures
        forall|j: int|
            0 <= j < method_patterns(routes, method).len() ==> {
                let (g, i) = #[trigger] method_patterns(routes, method)[j];
                &&& i < routes.len()
                &&& same_method(routes[i as int].method, method)
                &&& routes[i as int].glob@ == g
            },
        (exists|j: int| 0 <= j < routes.len() && same_method(#[trigger] routes[j].method, method))
            ==> method_patterns(routes, method).len() > 0,
    decreases routes.len(),
{
    if routes.len() > 0 {
        let rest = routes.drop_last();
        let n = routes.len() - 1;
        assert(rest.len() == n);
        lemma_method_patterns_places(rest, method);
        let mp = method_patterns(routes, method);
        let mr = method_patterns(rest, method);
        assert forall|j: int| 0 <= j < mp.len() implies {
            let (g, i) = #[trigger] mp[j];
            &&& i < routes.len()
            &&& same_method(routes[i as int].method, method)
            &&& routes[i as int].glob@ == g
        } by {
            if j < mr.len() {
                assert(mp[j] == mr[j]);
                let (g, i) = mr[j];
                assert(rest[i as int] == routes[i as int]);
            }
        }
        if exists|j: int| 0 <= j < routes.len() && same_method(#[trigger] routes[j].method, method) {
            let j = choose|j: int| 0 <= j < routes.len() && same_method(#[trigger] routes[j].method, method);
            if j < n {
                assert(rest[j] == routes[j]);
                assert(same_method(rest[j].method, method));
            }
        }
    }
}

/// Tells whether ASCII text holds no NUL character.
fn no_nul_bytes(s: &str) -> (r: bool)
    requires
        s.is_ascii(),
    ensures
        r == plain_text(s@),
{
    let bytes = s.as_bytes();
    proof {
        vstd::string::is_ascii_spec_bytes(s);
    }
    let mut i: usize = 0;
    while i < bytes.len()
        invariant
            bytes@ == s@.map_values(|c: char| c as u8),
            bytes@.len() == s@.len(),
            vstd::utf8::is_ascii_chars(s@),
            i <= bytes@.len(),
            forall|j: int| 0 <= j < i ==> '\0' < #[trigger] s@[j],
        decreases bytes@.len() - i,
    {
        if bytes[i] == 0 {
            assert(s@[i as int] as u8 == 0);
            return false;
        }
        assert(s@[i as int] as u8 != 0);
        i = i + 1;
    }
    true
}

/// A request whose method no route has goes to no route: a route for one
/// method never answers another (an extension method counts as the method
/// of its name).
pub proof fn law_no_route_for_other_methods<I, W, M, H>(routes: Seq<Route<I, W, M, H>>, method: Method, path: Seq<char>)
    requires
        forall|j: int|
            0 <= j < routes.len() ==> if method is Extension {
                !((#[trigger] routes[j]).method is Extension && routes[j].method->Extension_0@ == method->Extension_0@)
            } else {
                routes[j].method != method
            },
    ensures
        lookup(routes, method, path) is None,
{
    lemma_no_patterns_for_other_methods(routes, method);
}

proof fn lemma_no_patterns_for_other_methods<I, W, M, H>(routes: Seq<Route<I, W, M, H>>, method: Method)
    requires
        forall|j: int|
            0 <= j < routes.len() ==> if method is Extension {
                !((#[trigger] routes[j]).method is Extension && routes[j].method->Extension_0@ == method->Extension_0@)
            } else {
                routes[j].method != method
            },
    ensures
        method_patterns(routes, method).len() == 0,
    decreases routes.len(),
{
    if routes.len() > 0 {
        let rest = routes.drop_last();
        assert forall|j: int|
            0 <= j < rest.len() implies if method is Extension {
                !((#[trigger] rest[j]).method is Extension && rest[j].method->Extension_0@ == method->Extension_0@)
            } else {
                rest[j].method != method
            } by {
            assert(rest[j] == routes[j]);
        }
        lemma_no_patterns_for_other_methods(rest, method);
        law_same_method_is_equality(routes.last().method, method);
        assert(routes.last() == routes[routes.len() - 1]);
    }
}

/// Routes of one method leave the requests of every other method as they
/// were: a route added for another method changes nothing in what a
/// request is answered by.
pub proof fn law_routes_of_other_methods_do_not_interfere<I, W, M, H>(
    routes: Seq<Route<I, W, M, H>>,
    route: Route<I, W, M, H>,
    method: Method,
    path: Seq<char>,
)
    requires
        !same_method(route.method, method),
    ensures
        lookup(routes.push(route), method, path) == lookup(routes, method, path),
{
    assert(routes.push(route).drop_last() =~= routes);
}

/// The value a shared handle points to, if there is one.
pub open spec fn opt_shared<T>(o: Option<Arc<T>>) -> Option<T> {
    match o {
        Some(a) => Some(*a),
        None => None,
    }
}

/// `req` with the route parameters `params`.
pub open spec fn with_params<E>(req: SapperRequest<E>, params: Vec<(String, String)>) -> SapperRequest<E> {
    SapperRequest { params, ..req }
}

/// The application's route table: its routes in the order they were
/// added, and one recognizer for each method that has routes. A route's
/// path is a pattern of the recognizer: `:name` stands for one segment
/// and `*name` for the rest of the path, both read into parameters; of the
/// patterns that match, the most specific is picked.
pub struct Router<I, W, M, H> {
    pub routes: Vec<Route<I, W, M, H>>,
    pub tables: Vec<MethodTable>,
}

impl<I, W, M, H> Router<I, W, M, H> {
    /// Each method's recognizer holds the patterns of its routes, no two
    /// recognizers are for one method, each route's method has one, and no
    /// route's path holds a NUL character.
    pub open spec fn wf(&self) -> bool {
        &&& forall|k: int|
            0 <= k < self.tables@.len() ==> recognizer_patterns((#[trigger] self.tables@[k]).recognizer)
                == method_patterns(self.routes@, self.tables@[k].method)
        &&& forall|k: int|
            0 <= k < self.tables@.len() ==> method_patterns(self.routes@, (#[trigger] self.tables@[k]).method).len() > 0
        &&& forall|k: int, l: int|
            0 <= k < l < self.tables@.len() ==> !same_method(
                (#[trigger] self.tables@[k]).method,
                (#[trigger] self.tables@[l]).method,
            )
        &&& forall|j: int|
            0 <= j < self.routes@.len() ==> exists|k: int|
                0 <= k < self.tables@.len() && same_method(
                    (#[trigger] self.tables@[k]).method,
                    (#[trigger] self.routes@[j]).method,
                )
        &&& forall|j: int| 0 <= j < self.routes@.len() ==> no_nul((#[trigger] self.routes@[j]).glob@)
    }

    pub fn new() -> (r: Router<I, W, M, H>)
        ensures
            r.routes@.len() == 0,
            r.wf(),
    {
        Router { routes: Vec::new(), tables: Vec::new() }
    }

    /// The place of the recognizer for `method`, if it has one.
    fn table_of(&self, method: &Method) -> (r: Option<usize>)
        ensures
            match r {
                Some(k) => k < self.tables@.len() && same_method(self.tables@[k as int].method, *method),
                None => forall|k: int| 0 <= k < self.tables@.len() ==> !same_method(#[trigger] self.tables@[k].method, *method),
            },
    {
        let mut k: usize = 0;
        while k < self.tables.len()
            invariant
                k <= self.tables@.len(),
                forall|l: int| 0 <= l < k ==> !same_method(#[trigger] self.tables@[l].method, *method),
            decreases self.tables@.len() - k,
        {
            if method_eq(&self.tables[k].method, method) {
                return Some(k);
            }
            k = k + 1;
        }
        None
    }

    /// Adds a route after the ones already in the table, and its pattern to
    /// the recognizer of its method.
    pub fn route(&mut self, route: Route<I, W, M, H>)
        requires
            old(self).wf(),
            no_nul(route.glob@),
        ensures
            final(self).wf(),
            final(self).routes@ == old(self).routes@.push(route),
    {
        let ghost rs0 = self.routes@;
        let ghost rs1 = rs0.push(route);
        let idx = self.routes.len();
        proof {
            assert(rs1.drop_last() =~= rs0);
            assert forall|m: Method| !same_method(route.method, m) implies method_patterns(rs1, m)
                == method_patterns(rs0, m) by {}
            assert forall|m: Method| same_method(route.method, m) implies method_patterns(rs1, m)
                == method_patterns(rs0, m).push((route.glob@, idx)) by {}
        }
        let ghost ts0 = self.tables@;
        match self.table_of(&route.method) {
            Some(k) => {
                let mut table = self.tables.remove(k);
                recognizer_add(&mut table.recognizer, route.glob.as_str(), idx);
                self.tables.insert(k, table);
                proof {
                    let ts = self.tables@;
                    assert(ts =~= ts0.update(k as int, ts[k as int]));
                    lemma_same_method_classes(ts0[k as int].method, route.method, route.method);
                    assert(same_method(route.method, ts0[k as int].method));
                    assert forall|l: int| 0 <= l < ts.len() && l != k implies !same_method(
                        route.method,
                        (#[trigger] ts[l]).method,
                    ) by {
                        assert(ts[l] == ts0[l]);
                        if same_method(route.method, ts0[l].method) {
                            lemma_same_method_classes(route.method, ts0[l].method, ts0[k as int].method);
                            lemma_same_method_classes(ts0[k as int].method, route.method, ts0[l].method);
                            if l < k {
                                assert(!same_method(ts0[l].method, ts0[k as int].method));
                            } else {
                                assert(!same_method(ts0[k as int].method, ts0[l].method));
                            }
                        }
                    }
                    assert forall|l: int| 0 <= l < ts.len() implies recognizer_patterns((#[trigger] ts[l]).recognizer)
                        == method_patterns(rs1, ts[l].method) && method_patterns(rs1, ts[l].method).len() > 0 by {
                        if l != k {
                            assert(ts[l] == ts0[l]);
                        }
                    }
                }
            },
            None => {
                let mut recognizer = new_recognizer();
                recognizer_add(&mut recognizer, route.glob.as_str(), idx);
                self.tables.push(MethodTable { method: route.method.duplicate(), recognizer });
                proof {
                    let ts = self.tables@;
                    assert(ts =~= ts0.push(ts[ts0.len() as int]));
                    assert forall|l: int| 0 <= l < ts0.len() implies !same_method(
                        route.method,
                        (#[trigger] ts[l]).method,
                    ) by {
                        assert(ts[l] == ts0[l]);
                        if same_method(route.method, ts0[l].method) {
                            lemma_same_method_classes(route.method, ts0[l].method, route.method);
                        }
                    }
                    lemma_same_method_classes(route.method, route.method, route.method);
                    assert forall|k: int, l: int| 0 <= k < l < ts.len() implies !same_method(
                        (#[trigger] ts[k]).method,
                        (#[trigger] ts[l]).method,
                    ) by {
                        if l == ts0.len() {
                            if same_method(ts[k].method, route.method) {
                                lemma_same_method_classes(ts[k].method, route.method, route.method);
                            }
                        } else {
                            assert(ts[k] == ts0[k] && ts[l] == ts0[l]);
                        }
                    }
                    lemma_method_patterns_places(rs0, route.method);
                    if method_patterns(rs0, route.method).len() > 0 {
                        let (g, i) = method_patterns(rs0, route.method)[0];
                        let kk = choose|kk: int| 0 <= kk < ts0.len() && same_method(
                            (#[trigger] ts0[kk]).method,
                            rs0[i as int].method,
                        );
                        lemma_same_method_classes(rs0[i as int].method, route.method, ts0[kk].method);
                        assert(same_method(route.method, ts[kk].method));
                    }
                    assert(method_patterns(rs0, route.method) =~= Seq::<(Seq<char>, usize)>::empty());
                    assert forall|l: int| 0 <= l < ts.len() implies recognizer_patterns((#[trigger] ts[l]).recognizer)
                        == method_patterns(rs1, ts[l].method) && method_patterns(rs1, ts[l].method).len() > 0 by {
                        if l < ts0.len() {
                            assert(ts[l] == ts0[l]);
                        } else {
                            assert(ts[l].method == route.method);
                        }
                    }
                }
            },
        }
        self.routes.push(route);
        proof {
            let ts = self.tables@;
            assert(self.routes@ == rs1);
            assert forall|j: int| 0 <= j < rs1.len() implies exists|k: int|
                0 <= k < ts.len() && same_method((#[trigger] ts[k]).method, (#[trigger] rs1[j]).method) by {
                if j < rs0.len() {
                    assert(rs1[j] == rs0[j]);
                    let k0 = choose|k0: int| 0 <= k0 < ts0.len() && same_method((#[trigger] ts0[k0]).method, rs0[j].method);
                    if k0 < ts.len() && ts[k0].method == ts0[k0].method {
                        assert(same_method(ts[k0].method, rs1[j].method));
                    }
                } else {
                    assert(rs1[j] == route);
                }
            }
            assert forall|j: int| 0 <= j < rs1.len() implies no_nul((#[trigger] rs1[j]).glob@) by {
                if j < rs0.len() {
                    assert(rs1[j] == rs0[j]);
                }
            }
        }
    }

    /// Answers a request, given the route the recognizer found for it with
    /// the parameters read from its path: stores the parameters in the
    /// request and runs that route's pipeline (its global init, wrapper,
    /// module and handler), returning its outcome; where no route was found,
    /// fails with `NotFound` and the request's path, leaving the request as
    /// it was.
    pub fn dispatch<E>(&self, req: &mut SapperRequest<E>, found: Option<(usize, Vec<(String, String)>)>) -> (res: Result<SapperResponse, Error>)
        where
            I: GlobalInit<E>,
            W: SAppWrapper<E>,
            M: SModule<E, H>,
            H: SHandler<E>,
        requires
            found matches Some((i, _)) ==> i < self.routes@.len(),
        ensures
            found is None ==> *final(req) == *old(req) && (res matches Err(Error::NotFound(p)) && p@ == old(req).path@),
            found matches Some((i, ps)) ==> exists|run: Chain|
                #[trigger] chain_outcome(
                    opt_shared(self.routes@[i as int].init),
                    opt_shared(self.routes@[i as int].wrapper),
                    *self.routes@[i as int].module,
                    self.routes@[i as int].handler,
                    with_params(*old(req), ps),
                    *final(req),
                    res,
                    run,
                ),
    {
        match found {
            None => Err(Error::NotFound(req.path.clone())),
            Some((i, ps)) => {
                req.set_path_params(ps);
                let route = &self.routes[i];
                let init: Option<&I> = match &route.init {
                    Some(a) => Some(&**a),
                    None => None,
                };
                let wrapper: Option<&W> = match &route.wrapper {
                    Some(a) => Some(&**a),
                    None => None,
                };
                let (res, run) = run_chain(init, wrapper, &*route.module, &route.handler, req);
                proof {
                    assert(opt_deref(init) == opt_shared(route.init));
                    assert(opt_deref(wrapper) == opt_shared(route.wrapper));
                }
                res
            },
        }
    }

    /// Answers a request: the recognizer of the request's method picks the
    /// route whose pattern the path matches, and `dispatch` runs it with the
    /// parameters read from the path. A request whose method has no routes,
    /// whose path matches none of them, or whose path is not plain ASCII,
    /// fails with `NotFound` and the request's path, and is left as it was.
    pub fn handle_method<E>(&self, req: &mut SapperRequest<E>) -> (res: Result<SapperResponse, Error>)
        where
            I: GlobalInit<E>,
            W: SAppWrapper<E>,
            M: SModule<E, H>,
            H: SHandler<E>,
        requires
            self.wf(),
        ensures
            match lookup(self.routes@, old(req).method, old(req).path@) {
                None => *final(req) == *old(req) && (res matches Err(Error::NotFound(p)) && p@ == old(req).path@),
                Some((i, ps)) => i < self.routes@.len() && exists|mid: SapperRequest<E>, run: Chain|
                    mid == with_params(*old(req), mid.params) && pairs_view(mid.params@) == ps
                        && #[trigger] chain_outcome(
                        opt_shared(self.routes@[i as int].init),
                        opt_shared(self.routes@[i as int].wrapper),
                        *self.routes@[i as int].module,
                        self.routes@[i as int].handler,
                        mid,
                        *final(req),
                        res,
                        run,
                    ),
            },
    {
        let ghost method = req.method;
        let ghost path = req.path@;
        let ghost pre = *req;
        proof {
            assert(self.routes@.len() == self.routes.len());
            lemma_method_patterns_places(self.routes@, method);
        }
        if !(req.path.is_ascii() && no_nul_bytes(req.path.as_str())) {
            return Err(Error::NotFound(req.path.clone()));
        }
        let k = match self.table_of(&req.method) {
            Some(k) => k,
            None => {
                proof {
                    if method_patterns(self.routes@, method).len() > 0 {
                        let (g, i) = method_patterns(self.routes@, method)[0];
                        let kk = choose|kk: int| 0 <= kk < self.tables@.len() && same_method(
                            (#[trigger] self.tables@[kk]).method,
                            self.routes@[i as int].method,
                        );
                        lemma_same_method_classes(self.routes@[i as int].method, method, self.tables@[kk].method);
                    }
                }
                return Err(Error::NotFound(req.path.clone()));
            },
        };
        let found = recognizer_find(&self.tables[k].recognizer, req.path.as_str());
        proof {
            let t = self.tables@[k as int];
            lemma_method_patterns_same(self.routes@, t.method, method);
            if let Some((i, _)) = found {
                let pats = recognizer_patterns(t.recognizer);
                let j = choose|j: int| 0 <= j < pats.len() && (#[trigger] pats[j]).1 == i;
                assert(pats[j] == method_patterns(self.routes@, method)[j]);
            }
        }
        let ghost fv = found;
        let res = self.dispatch(req, found);
        proof {
            if let Some((i, ps)) = fv {
                let run = choose|run: Chain| #[trigger] chain_outcome(
                    opt_shared(self.routes@[i as int].init),
                    opt_shared(self.routes@[i as int].wrapper),
                    *self.routes@[i as int].module,
                    self.routes@[i as int].handler,
                    with_params(pre, ps),
                    *req,
                    res,
                    run,
                );
                let mid = with_params(pre, ps);
                assert(mid == with_params(pre, mid.params));
            }
        }
        res
    }
}

} // verus!
