use vstd::prelude::*;
use std::marker::PhantomData;
use std::sync::Arc;
use crate::error::Error;
use crate::request::Method;
use crate::router::{Route, Router, SModule, SRouter, no_nul};
use vstd::string::StrSliceExecFns;

verus! {

/// The character of a decimal digit.
pub open spec fn digit_char(d: nat) -> char {
    (48 + d) as char
}

/// The decimal numeral of `n`, without leading zeros.
pub open spec fn decimal(n: nat) -> Seq<char>
    decreases n,
{
    if n < 10 {
        seq![digit_char(n)]
    } else {
        decimal(n / 10).push(digit_char(n % 10))
    }
}

fn digit_str(d: u32) -> (r: &'static str)
    requires
        d < 10,
    ensures
        r@ == seq![digit_char(d as nat)],
{
    proof {
        reveal_strlit("0");
        reveal_strlit("1");
        reveal_strlit("2");
        reveal_strlit("3");
        reveal_strlit("4");
        reveal_strlit("5");
        reveal_strlit("6");
        reveal_strlit("7");
        reveal_strlit("8");
        reveal_strlit("9");
    }
    match d {
        0 => "0",
        1 => "1",
        2 => "2",
        3 => "3",
        4 => "4",
        5 => "5",
        6 => "6",
        7 => "7",
        8 => "8",
        _ => "9",
    }
}

/// Appends the decimal numeral of `n` to `s`.
pub fn push_decimal(s: &mut String, n: u32)
    ensures
        final(s)@ == old(s)@ + decimal(n as nat),
    decreases n,
{
    if n >= 10 {
        push_decimal(s, n / 10);
    }
    s.append(digit_str(n % 10));
}

/// Another handle on the same shared value, if there is one.
fn share<T>(o: &Option<Arc<T>>) -> (r: Option<Arc<T>>)
    ensures
        r == *o,
{
    match o {
        Some(a) => Some(a.clone()),
        None => None,
    }
}

/// A wrapper set on an application applies to the modules added after it,
/// and not to those added before: each route keeps the wrapper that was in
/// place when its module was added.
pub proof fn law_wrapper_applies_to_later_modules<E, I, W, M, H>(
    a0: SApp<E, I, W, M, H>,
    a1: SApp<E, I, W, M, H>,
    a2: SApp<E, I, W, M, H>,
    a3: SApp<E, I, W, M, H>,
    m1: M,
    m2: M,
    w: W,
)
    requires
        module_added(a0, a1, m1),
        a2 == (SApp { wrapper: Some(Arc::new(w)), ..a1 }),
        module_added(a2, a3, m2),
    ensures
        forall|k: int|
            a0.routers.routes@.len() <= k < a1.routers.routes@.len() ==> {
                &&& *(#[trigger] a3.routers.routes@[k]).module == m1
                &&& a3.routers.routes@[k].wrapper == a0.wrapper
            },
        forall|k: int|
            a2.routers.routes@.len() <= k < a3.routers.routes@.len() ==> {
                &&& *(#[trigger] a3.routers.routes@[k]).module == m2
                &&& a3.routers.routes@[k].wrapper == Some(Arc::new(w))
            },
{
    assert forall|k: int| a0.routers.routes@.len() <= k < a1.routers.routes@.len() implies {
        &&& *(#[trigger] a3.routers.routes@[k]).module == m1
        &&& a3.routers.routes@[k].wrapper == a0.wrapper
    } by {
        assert(a3.routers.routes@[k] == a3.routers.routes@.take(a2.routers.routes@.len() as int)[k]);
    }
}

/// The number a string of decimal digits stands for.
pub open spec fn decimal_value(s: Seq<char>) -> nat
    decreases s.len(),
{
    if s.len() == 0 {
        0
    } else {
        decimal_value(s.drop_last()) * 10 + ((s.last() as nat) - 48) as nat
    }
}

/// The numeral of a number is made of decimal digits, starts with a non-zero
/// digit unless the number is zero, and stands for that number.
pub proof fn law_decimal_round_trip(n: nat)
    ensures
        decimal(n).len() > 0,
        forall|i: int| 0 <= i < decimal(n).len() ==> '0' <= #[trigger] decimal(n)[i] <= '9',
        n > 0 ==> decimal(n)[0] != '0',
        decimal_value(decimal(n)) == n,
    decreases n,
{
    let d = decimal(n);
    assert((digit_char(n % 10) as nat) == 48 + n % 10);
    if n < 10 {
        assert(d.drop_last() =~= Seq::<char>::empty());
        assert(decimal_value(d) == decimal_value(d.drop_last()) * 10 + ((d.last() as nat) - 48) as nat);
    }
    if n >= 10 {
        law_decimal_round_trip(n / 10);
        assert(d.drop_last() =~= decimal(n / 10));
        assert(d[0] == decimal(n / 10)[0]);
        assert(n == (n / 10) * 10 + n % 10) by (nonlinear_arith);
        assert(decimal_value(d) == decimal_value(d.drop_last()) * 10 + ((d.last() as nat) - 48) as nat);
        assert forall|i: int| 0 <= i < d.len() implies '0' <= #[trigger] d[i] <= '9' by {
            if i < d.len() - 1 {
                assert(d[i] == decimal(n / 10)[i]);
            }
        }
    }
}

/// The address a server listens on: host, a colon, and the port in decimal.
pub open spec fn listen_addr_of(address: Seq<char>, port: u32) -> Seq<char> {
    address + seq![':'] + decimal(port as nat)
}

/// The listen address is the host, then a colon, then the port written in
/// decimal digits, without leading zeros, that read back as the port.
pub proof fn law_listen_addr_is_host_colon_port(address: Seq<char>, port: u32)
    ensures
        ({
            let s = listen_addr_of(address, port);
            let n: int = address.len() as int;
            &&& s.len() > n + 1
            &&& s.take(n) == address
            &&& s[n] == ':'
            &&& forall|i: int| n < i < s.len() ==> '0' <= #[trigger] s[i] <= '9'
            &&& port > 0 ==> s[n + 1] != '0'
            &&& decimal_value(s.skip(n + 1)) == port
        }),
{
    let s = listen_addr_of(address, port);
    let n: int = address.len() as int;
    let d = decimal(port as nat);
    law_decimal_round_trip(port as nat);
    assert(s.take(n) =~= address);
    assert(s.skip(n + 1) =~= d);
    assert forall|i: int| n < i < s.len() implies '0' <= #[trigger] s[i] <= '9' by {
        assert(s[i] == d[i - n - 1]);
    }
    assert(s[n + 1] == d[0]);
}

/// An application: where it listens, whether it serves static files for
/// paths no route answers, its global init and wrapper, and the route table
/// that its modules fill.
pub struct SApp<E, I, W, M, H> {
    pub address: String,
    pub port: u32,
    pub wrapper: Option<Arc<W>>,
    pub routers: Router<I, W, M, H>,
    pub static_service: bool,
    pub init_closure: Option<Arc<I>>,
    pub _marker: PhantomData<E>,
}

/// Whatever the module's `router` promises, it promises success.
pub open spec fn declares_without_fail<E, H, M: SModule<E, H>>(sm: M) -> bool {
    forall|pre: SRouter<H>, post: SRouter<H>, r: Result<(), Error>| #[trigger] sm.declares(pre, post, r) ==> r is Ok
}

/// No declared path holds a NUL character.
pub open spec fn declared_paths_ok<H>(routes: Seq<(Method, String, H)>) -> bool {
    forall|k: int| 0 <= k < routes.len() ==> no_nul((#[trigger] routes[k]).1@)
}

/// Tells whether a text holds no NUL character.
pub fn has_no_nul(s: &str) -> (r: bool)
    ensures
        r == no_nul(s@),
{
    let n = s.unicode_len();
    let mut i: usize = 0;
    while i < n
        invariant
            n == s@.len(),
            i <= n,
            forall|j: int| 0 <= j < i ==> #[trigger] s@[j] != '\0',
        decreases n - i,
    {
        if s.get_char(i) == '\0' {
            return false;
        }
        i = i + 1;
    }
    true
}

/// Tells whether no declared path holds a NUL character.
fn paths_ok<H>(routes: &Vec<(Method, String, H)>) -> (r: bool)
    ensures
        r == declared_paths_ok(routes@),
{
    let mut k: usize = 0;
    while k < routes.len()
        invariant
            k <= routes@.len(),
            forall|j: int| 0 <= j < k ==> no_nul((#[trigger] routes@[j]).1@),
        decreases routes@.len() - k,
    {
        if !has_no_nul(routes[k].1.as_str()) {
            return false;
        }
        k = k + 1;
    }
    true
}

/// `new` is `old` with the routes of module `sm` added after its own, each
/// running under `sm` and under the wrapper and global init of `old`.
pub open spec fn module_added<E, I, W, M, H>(old: SApp<E, I, W, M, H>, new: SApp<E, I, W, M, H>, sm: M) -> bool {
    &&& new.routers.routes@.len() >= old.routers.routes@.len()
    &&& new.routers.routes@.take(old.routers.routes@.len() as int) == old.routers.routes@
    &&& forall|k: int|
        old.routers.routes@.len() <= k < new.routers.routes@.len() ==> {
            let r = #[trigger] new.routers.routes@[k];
            &&& *r.module == sm
            &&& r.wrapper == old.wrapper
            &&& r.init == old.init_closure
        }
}

/// `new` is `old` with the routes `declared` added after its own, in order,
/// each with its method, path and handler, running under module `sm` and
/// under the wrapper and global init of `old`.
pub open spec fn routes_installed<E, I, W, M, H>(
    old: SApp<E, I, W, M, H>,
    new: SApp<E, I, W, M, H>,
    sm: M,
    declared: Seq<(Method, String, H)>,
) -> bool {
    &&& new.routers.routes@.len() == old.routers.routes@.len() + declared.len()
    &&& new.routers.routes@.take(old.routers.routes@.len() as int) == old.routers.routes@
    &&& forall|k: int|
        0 <= k < declared.len() ==> {
            let r = #[trigger] new.routers.routes@[old.routers.routes@.len() + k];
            &&& r.method == declared[k].0
            &&& r.glob == declared[k].1
            &&& r.handler == declared[k].2
            &&& *r.module == sm
            &&& r.wrapper == old.wrapper
            &&& r.init == old.init_closure
        }
}

impl<E, I, W, M, H> SApp<E, I, W, M, H> {
    /// An application with no address, port 0, no routes, no wrapper, no
    /// global init, and static file service on.
    pub fn new() -> (r: Self)
        ensures
            r.address@ == Seq::<char>::empty(),
            r.port == 0,
            r.wrapper is None,
            r.routers.routes@.len() == 0,
            r.routers.wf(),
            r.static_service,
            r.init_closure is None,
    {
        SApp {
            address: String::new(),
            port: 0,
            wrapper: None,
            routers: Router::new(),
            static_service: true,
            init_closure: None,
            _marker: PhantomData,
        }
    }

    /// The address the server listens on: `address:port`.
    pub fn listen_addr(&self) -> (r: String)
        ensures
            r@ == listen_addr_of(self.address@, self.port),
    {
        let mut s = self.address.clone();
        proof {
            reveal_strlit(":");
        }
        s.append(":");
        push_decimal(&mut s, self.port);
        s
    }

    /// Sets the host the server listens on.
    pub fn address(&mut self, address: &str) -> (r: &mut Self)
        ensures
            *final(self) == *final(r),
            r.address@ == address@,
            r.port == old(self).port,
            r.wrapper == old(self).wrapper,
            r.routers == old(self).routers,
            r.static_service == old(self).static_service,
            r.init_closure == old(self).init_closure,
    {
        self.address = address.to_owned();
        self
    }

    /// Sets the port the server listens on.
    pub fn port(&mut self, port: u32) -> (r: &mut Self)
        ensures
            *final(self) == *final(r),
            *r == (SApp { port, ..*old(self) }),
    {
        self.port = port;
        self
    }

    /// Turns the serving of static files, for paths no route answers, on or
    /// off.
    pub fn static_service(&mut self, open: bool) -> (r: &mut Self)
        ensures
            *final(self) == *final(r),
            *r == (SApp { static_service: open, ..*old(self) }),
    {
        self.static_service = open;
        self
    }

    /// Sets the application wrapper; modules added from now on run under it.
    pub fn with_wrapper(&mut self, w: W) -> (r: &mut Self)
        ensures
            *final(self) == *final(r),
            *r == (SApp { wrapper: Some(Arc::new(w)), ..*old(self) }),
    {
        self.wrapper = Some(Arc::new(w));
        self
    }

    /// Sets the global init; modules added from now on run it first.
    pub fn init_global(&mut self, clos: I) -> (r: &mut Self)
        ensures
            *final(self) == *final(r),
            *r == (SApp { init_closure: Some(Arc::new(clos)), ..*old(self) }),
    {
        self.init_closure = Some(Arc::new(clos));
        self
    }

    /// Adds a module: asks it for its routes, starting from an empty route
    /// list, and adds each of them to the route table, to run under the
    /// module's own middleware and under the wrapper and global init that the
    /// application has now; then hands the application back for further
    /// building. A module is expected to declare its routes without fail
    /// (an application cannot go on without them); should one fail all the
    /// same, its error is handed back. When a declared path holds a NUL
    /// character, which the recognizer cannot take, `InvalidRouterConfig`
    /// comes back and the application is left as it was.
    pub fn add_module(&mut self, sm: M) -> (res: Result<&mut Self, Error>)
        where
            M: SModule<E, H>,
        requires
            old(self).routers.wf(),
            declares_without_fail::<E, H, M>(sm),
        ensures
            exists|pre: SRouter<H>, post: SRouter<H>|
                #[trigger] sm.declares(pre, post, Ok::<(), Error>(())) && pre.routes@.len() == 0 && if !declared_paths_ok(
                    post.routes@,
                ) {
                    res == Err::<&mut Self, Error>(Error::InvalidRouterConfig) && *final(self) == *old(self)
                } else {
                    res matches Ok(app) && {
                        &&& *final(self) == *final(app)
                        &&& app.routers.wf()
                        &&& routes_installed(*old(self), *app, sm, post.routes@)
                        &&& module_added(*old(self), *app, sm)
                        &&& app.address == old(self).address
                        &&& app.port == old(self).port
                        &&& app.wrapper == old(self).wrapper
                        &&& app.static_service == old(self).static_service
                        &&& app.init_closure == old(self).init_closure
                    }
                },
    {
        let mut router: SRouter<H> = SRouter::new();
        let ghost pre = router;
        let declared = sm.router(&mut router);
        match declared {
            Err(e) => {
                proof {
                    assert(sm.declares(pre, router, Err::<(), Error>(e)));
                }
                return Err(e);
            },
            Ok(u) => {
                assert(u == ());
            },
        }
        let ghost post = router;
        if !paths_ok(&router.routes) {
            proof {
                assert(sm.declares(pre, post, Ok::<(), Error>(())));
            }
            return Err(Error::InvalidRouterConfig);
        }
        let module = Arc::new(sm);
        let ghost n0 = self.routers.routes@.len();
        self.install_routes(module, router.into_router());
        assert forall|k: int|
            n0 <= k < self.routers.routes@.len() implies {
                let r = #[trigger] self.routers.routes@[k];
                &&& *r.module == sm
                &&& r.wrapper == old(self).wrapper
                &&& r.init == old(self).init_closure
            } by {
            let j = k - n0;
            assert(self.routers.routes@[n0 + j] == self.routers.routes@[k]);
        }
        assert(sm.declares(pre, post, Ok::<(), Error>(())));
        Ok(self)
    }

    /// Adds the routes a module declared, each with that module and with the
    /// wrapper and global init that the application has now.
    pub fn install_routes(&mut self, module: Arc<M>, routes: Vec<(Method, String, H)>)
        requires
            old(self).routers.wf(),
            declared_paths_ok(routes@),
        ensures
            final(self).routers.wf(),
            routes_installed(*old(self), *final(self), *module, routes@),
            final(self).routers.routes@.len() == old(self).routers.routes@.len() + routes@.len(),
            forall|k: int|
                0 <= k < routes@.len() ==> (#[trigger] final(self).routers.routes@[old(self).routers.routes@.len() + k]).module == module,
            final(self).address == old(self).address,
            final(self).port == old(self).port,
            final(self).wrapper == old(self).wrapper,
            final(self).static_service == old(self).static_service,
            final(self).init_closure == old(self).init_closure,
    {
        let ghost old_routes = self.routers.routes@;
        let ghost given = routes@;
        for entry in it: routes.into_iter()
            invariant
                it.seq() == given,
                declared_paths_ok(given),
                self.routers.wf(),
                self.routers.routes@.len() == old_routes.len() + it.index(),
                self.routers.routes@.take(old_routes.len() as int) == old_routes,
                forall|k: int|
                    0 <= k < it.index() ==> {
                        let r = #[trigger] self.routers.routes@[old_routes.len() + k];
                        &&& r.method == given[k].0
                        &&& r.glob == given[k].1
                        &&& r.handler == given[k].2
                        &&& r.module == module
                        &&& r.wrapper == old(self).wrapper
                        &&& r.init == old(self).init_closure
                    },
                self.address == old(self).address,
                self.port == old(self).port,
                self.wrapper == old(self).wrapper,
                self.static_service == old(self).static_service,
                self.init_closure == old(self).init_closure,
        {
            let (method, glob, handler) = entry;
            assert(given[it.index() as int] == entry);
            let w = share(&self.wrapper);
            let ini = share(&self.init_closure);
            let route = Route {
                method,
                glob,
                handler,
                module: module.clone(),
                wrapper: w,
                init: ini,
            };
            self.routers.route(route);
        }
    }
}

} // verus!
