use vstd::prelude::*;
use crate::error::Error;
use crate::request::SapperRequest;
use crate::response::SapperResponse;
use crate::router::SModule;

verus! {

/// A hook a route handler's request passes through. Every route runs, in
/// this order: the application's global init (when one is set), the
/// application wrapper's `before` (when a wrapper is set), the module's
/// `before`, the handler, the module's `after`, and the application
/// wrapper's `after` (when a wrapper is set).
#[derive(Debug, Clone, Copy, PartialEq, Eq)]
pub enum Stage {
    GlobalInit,
    WrapperBefore,
    ModuleBefore,
    Handle,
    ModuleAfter,
    WrapperAfter,
}

/// The hooks a request runs through, in order, given whether the
/// application has a global init and a wrapper.
pub open spec fn pipeline(has_init: bool, has_wrapper: bool) -> Seq<Stage> {
    (if has_init { seq![Stage::GlobalInit] } else { Seq::<Stage>::empty() })
        + (if has_wrapper { seq![Stage::WrapperBefore] } else { Seq::<Stage>::empty() })
        + seq![Stage::ModuleBefore, Stage::Handle, Stage::ModuleAfter]
        + (if has_wrapper { seq![Stage::WrapperAfter] } else { Seq::<Stage>::empty() })
}

/// Where the handler stands in the pipeline.
pub open spec fn handle_index(has_init: bool, has_wrapper: bool) -> int {
    (if has_init { 1int } else { 0int }) + (if has_wrapper { 1int } else { 0int }) + 1
}

/// The pipeline written out, for each of the four configurations.
pub proof fn lemma_pipeline_cases(has_init: bool, has_wrapper: bool)
    ensures
        has_init && has_wrapper ==> pipeline(has_init, has_wrapper) == seq![
            Stage::GlobalInit,
            Stage::WrapperBefore,
            Stage::ModuleBefore,
            Stage::Handle,
            Stage::ModuleAfter,
            Stage::WrapperAfter,
        ],
        has_init && !has_wrapper ==> pipeline(has_init, has_wrapper) == seq![
            Stage::GlobalInit,
            Stage::ModuleBefore,
            Stage::Handle,
            Stage::ModuleAfter,
        ],
        !has_init && has_wrapper ==> pipeline(has_init, has_wrapper) == seq![
            Stage::WrapperBefore,
            Stage::ModuleBefore,
            Stage::Handle,
            Stage::ModuleAfter,
            Stage::WrapperAfter,
        ],
        !has_init && !has_wrapper ==> pipeline(has_init, has_wrapper) == seq![
            Stage::ModuleBefore,
            Stage::Handle,
            Stage::ModuleAfter,
        ],
{
    let p = pipeline(has_init, has_wrapper);
    if has_init && has_wrapper {
        assert(p =~= seq![
            Stage::GlobalInit,
            Stage::WrapperBefore,
            Stage::ModuleBefore,
            Stage::Handle,
            Stage::ModuleAfter,
            Stage::WrapperAfter,
        ]);
    } else if has_init {
        assert(p =~= seq![Stage::GlobalInit, Stage::ModuleBefore, Stage::Handle, Stage::ModuleAfter]);
    } else if has_wrapper {
        assert(p =~= seq![
            Stage::WrapperBefore,
            Stage::ModuleBefore,
            Stage::Handle,
            Stage::ModuleAfter,
            Stage::WrapperAfter,
        ]);
    } else {
        assert(p =~= seq![Stage::ModuleBefore, Stage::Handle, Stage::ModuleAfter]);
    }
}

/// The middleware nests around the handler: the global init comes first,
/// the application wrapper's `before` and `after` enclose the module's, and
/// the module's enclose the handler, which runs in the middle. No hook runs
/// twice.
pub proof fn law_pipeline_nesting(has_init: bool, has_wrapper: bool)
    ensures
        ({
            let p = pipeline(has_init, has_wrapper);
            let hi = handle_index(has_init, has_wrapper);
            &&& 0 < hi < p.len() - 1
            &&& p[hi] == Stage::Handle
            &&& p[hi - 1] == Stage::ModuleBefore
            &&& p[hi + 1] == Stage::ModuleAfter
            &&& has_init ==> p[0] == Stage::GlobalInit
            &&& has_wrapper ==> p[hi - 2] == Stage::WrapperBefore && p[hi + 2] == Stage::WrapperAfter
                && p.len() == hi + 3
            &&& !has_wrapper ==> p.len() == hi + 2
            &&& forall|i: int, j: int| 0 <= i < j < p.len() ==> p[i] != p[j]
        }),
{
    lemma_pipeline_cases(has_init, has_wrapper);
}

/// The progress of one request through its pipeline: whether the route
/// has a global init and a wrapper (which fixes its hooks, as `pipeline`
/// lists them), how many hooks have passed, and whether one of them failed
/// (which ends the run).
pub struct Chain {
    pub has_init: bool,
    pub has_wrapper: bool,
    pub pos: usize,
    pub failed: bool,
}

impl Chain {
    /// The hooks of the run, in order.
    pub open spec fn stage_seq(&self) -> Seq<Stage> {
        pipeline(self.has_init, self.has_wrapper)
    }

    pub open spec fn wf(&self) -> bool {
        self.pos <= self.stage_seq().len() && (self.failed ==> self.pos < self.stage_seq().len())
    }

    /// The hook to run next, if the run is not over.
    pub open spec fn next_stage(&self) -> Option<Stage> {
        if !self.failed && self.pos < self.stage_seq().len() {
            Some(self.stage_seq()[self.pos as int])
        } else {
            None
        }
    }

    /// Every hook has run and succeeded.
    pub open spec fn succeeded(&self) -> bool {
        !self.failed && self.pos == self.stage_seq().len()
    }

    /// A fresh run of the pipeline.
    pub fn new(has_init: bool, has_wrapper: bool) -> (r: Chain)
        ensures
            r.stage_seq() == pipeline(has_init, has_wrapper),
            r.pos == 0,
            !r.failed,
            r.wf(),
    {
        proof {
            lemma_pipeline_cases(has_init, has_wrapper);
        }
        Chain { has_init, has_wrapper, pos: 0, failed: false }
    }

    /// The number of hooks of the run.
    pub fn stage_count(&self) -> (r: usize)
        ensures
            r == self.stage_seq().len(),
    {
        proof {
            lemma_pipeline_cases(self.has_init, self.has_wrapper);
        }
        let mut n: usize = 3;
        if self.has_init {
            n = n + 1;
        }
        if self.has_wrapper {
            n = n + 2;
        }
        n
    }

    /// The hook at place `i` of the run.
    pub fn stage_at(&self, i: usize) -> (r: Stage)
        requires
            i < self.stage_seq().len(),
        ensures
            r == self.stage_seq()[i as int],
    {
        proof {
            lemma_pipeline_cases(self.has_init, self.has_wrapper);
        }
        let mut k: usize = i;
        if self.has_init {
            if k == 0 {
                return Stage::GlobalInit;
            }
            k = k - 1;
        }
        if self.has_wrapper {
            if k == 0 {
                return Stage::WrapperBefore;
            }
            k = k - 1;
        }
        if k == 0 {
            Stage::ModuleBefore
        } else if k == 1 {
            Stage::Handle
        } else if k == 2 {
            Stage::ModuleAfter
        } else {
            Stage::WrapperAfter
        }
    }

    /// The hook to run next, if the run is not over.
    pub fn current(&self) -> (r: Option<Stage>)
        requires
            self.wf(),
        ensures
            r == self.next_stage(),
    {
        if !self.failed && self.pos < self.stage_count() {
            Some(self.stage_at(self.pos))
        } else {
            None
        }
    }

    /// Records how the current hook ended: on success the run moves to the
    /// next hook, on failure the run is over.
    pub fn record(&mut self, ok: bool)
        requires
            old(self).wf(),
            old(self).next_stage() is Some,
        ensures
            final(self).wf(),
            final(self).has_init == old(self).has_init,
            final(self).has_wrapper == old(self).has_wrapper,
            ok ==> final(self).pos == old(self).pos + 1 && !final(self).failed,
            !ok ==> final(self).pos == old(self).pos && final(self).failed,
    {
        if ok {
            assert(self.pos < self.stage_seq().len());
            self.pos = self.pos + 1;
        } else {
            self.failed = true;
        }
    }
}

/// A request handler: turns a request into a response or an error.
pub trait SHandler<E> {
    /// What the handler promises of one call: on request `pre` it may end
    /// as `r`, leaving the request as `post`.
    /// An implementation that promises nothing keeps the default.
    open spec fn handles(&self, pre: SapperRequest<E>, post: SapperRequest<E>, r: Result<SapperResponse, Error>) -> bool {
        true
    }

    fn handle(&self, req: &mut SapperRequest<E>) -> (r: Result<SapperResponse, Error>)
        ensures
            self.handles(*old(req), *final(req), r),
    ;
}

/// Application-wide middleware, run around every route of every module.
pub trait SAppWrapper<E> {
    /// What the wrapper's `before` promises of one call.
    /// An implementation that promises nothing keeps the default.
    open spec fn before_rel(&self, pre: SapperRequest<E>, post: SapperRequest<E>, r: Result<(), Error>) -> bool {
        true
    }

    /// What the wrapper's `after` promises of one call: on request `req` it
    /// may end as `r`, turning the response `pre` into `post`.
    /// An implementation that promises nothing keeps the default.
    open spec fn after_rel(&self, req: SapperRequest<E>, pre: SapperResponse, post: SapperResponse, r: Result<(), Error>) -> bool {
        true
    }

    fn before(&self, req: &mut SapperRequest<E>) -> (r: Result<(), Error>)
        ensures
            self.before_rel(*old(req), *final(req), r),
    ;

    fn after(&self, req: &SapperRequest<E>, res: &mut SapperResponse) -> (r: Result<(), Error>)
        ensures
            self.after_rel(*req, *old(res), *final(res), r),
    ;
}

/// The application's global initialisation, run first for every request.
pub trait GlobalInit<E> {
    /// What the init promises of one call.
    /// An implementation that promises nothing keeps the default.
    open spec fn inits(&self, pre: SapperRequest<E>, post: SapperRequest<E>, r: Result<(), Error>) -> bool {
        true
    }

    fn init(&self, req: &mut SapperRequest<E>) -> (r: Result<(), Error>)
        ensures
            self.inits(*old(req), *final(req), r),
    ;
}

/// The value an optional reference points to.
pub open spec fn opt_deref<T>(o: Option<&T>) -> Option<T> {
    match o {
        Some(t) => Some(*t),
        None => None,
    }
}

/// One hook call of a run: at stage `s`, the hook got request `x` and the
/// response so far `resp`, left request `y` and response `resp2`, and ended
/// as `o`. Hooks before the handler see no response; the handler's success
/// gives the response; the `after` hooks see the response and may change it,
/// but not the request.
pub open spec fn hook_step<E, I: GlobalInit<E>, W: SAppWrapper<E>, M: SModule<E, H>, H: SHandler<E>>(
    init: Option<I>,
    wrapper: Option<W>,
    module: M,
    handler: H,
    s: Stage,
    x: SapperRequest<E>,
    resp: Option<SapperResponse>,
    y: SapperRequest<E>,
    resp2: Option<SapperResponse>,
    o: Result<(), Error>,
) -> bool {
    match s {
        Stage::GlobalInit => init matches Some(i) && i.inits(x, y, o) && resp2 == resp,
        Stage::WrapperBefore => wrapper matches Some(w) && w.before_rel(x, y, o) && resp2 == resp,
        Stage::ModuleBefore => module.before_rel(x, y, o) && resp2 == resp,
        Stage::Handle => match o {
            Ok(_) => resp2 matches Some(v) && handler.handles(x, y, Ok(v)),
            Err(e) => resp2 == resp && handler.handles(x, y, Err(e)),
        },
        Stage::ModuleAfter => {
            &&& y == x
            &&& resp matches Some(a)
            &&& resp2 matches Some(b)
            &&& module.after_rel(x, a, b, o)
        },
        Stage::WrapperAfter => {
            &&& y == x
            &&& wrapper matches Some(w)
            &&& resp matches Some(a)
            &&& resp2 matches Some(b)
            &&& w.after_rel(x, a, b, o)
        },
    }
}

/// The first `k` stages were called one after the other: stage `i` got
/// request `reqs[i]` and response `resps[i]` and left `reqs[i + 1]` and
/// `resps[i + 1]`, ending as `outs[i]`; the run started with no response.
pub open spec fn trace_steps<E, I: GlobalInit<E>, W: SAppWrapper<E>, M: SModule<E, H>, H: SHandler<E>>(
    init: Option<I>,
    wrapper: Option<W>,
    module: M,
    handler: H,
    stages: Seq<Stage>,
    reqs: Seq<SapperRequest<E>>,
    resps: Seq<Option<SapperResponse>>,
    outs: Seq<Result<(), Error>>,
    k: int,
) -> bool {
    &&& 0 <= k <= stages.len()
    &&& reqs.len() == k + 1
    &&& resps.len() == k + 1
    &&& outs.len() == k
    &&& resps[0] is None
    &&& forall|i: int|
        #![trigger outs[i]]
        0 <= i < k ==> hook_step(init, wrapper, module, handler, stages[i], reqs[i], resps[i], reqs[i + 1], resps[i + 1], outs[i])
}

/// A whole run, told by its trace: the hooks of `stages` were called in
/// order on the request as the previous hook left it, starting from `pre`
/// and leaving `post`; the first `pos` succeeded. When the run failed, the
/// hook at `pos` was the last one called and the outcome is its own error;
/// otherwise every hook was called and the outcome is the response as the
/// `after` hooks left it.
pub open spec fn run_trace<E, I: GlobalInit<E>, W: SAppWrapper<E>, M: SModule<E, H>, H: SHandler<E>>(
    init: Option<I>,
    wrapper: Option<W>,
    module: M,
    handler: H,
    stages: Seq<Stage>,
    pre: SapperRequest<E>,
    post: SapperRequest<E>,
    res: Result<SapperResponse, Error>,
    pos: int,
    failed: bool,
    reqs: Seq<SapperRequest<E>>,
    resps: Seq<Option<SapperResponse>>,
    outs: Seq<Result<(), Error>>,
) -> bool {
    let k = if failed { pos + 1 } else { pos };
    &&& trace_steps(init, wrapper, module, handler, stages, reqs, resps, outs, k)
    &&& reqs[0] == pre
    &&& reqs[k] == post
    &&& forall|i: int| 0 <= i < pos ==> (#[trigger] outs[i]) is Ok
    &&& failed ==> res is Err && outs[pos] == Err::<(), Error>(res->Err_0)
    &&& !failed ==> pos == stages.len() && resps[k] is Some && res == Ok::<SapperResponse, Error>(resps[k]->Some_0)
}

/// The outcome `res` and the final request `post` are those of a run of
/// the pipeline from request `pre`, which stopped as `run` records.
pub open spec fn chain_outcome<E, I: GlobalInit<E>, W: SAppWrapper<E>, M: SModule<E, H>, H: SHandler<E>>(
    init: Option<I>,
    wrapper: Option<W>,
    module: M,
    handler: H,
    pre: SapperRequest<E>,
    post: SapperRequest<E>,
    res: Result<SapperResponse, Error>,
    run: Chain,
) -> bool {
    &&& run.stage_seq() == pipeline(init is Some, wrapper is Some)
    &&& run.wf()
    &&& run.next_stage() is None
    &&& exists|reqs: Seq<SapperRequest<E>>, resps: Seq<Option<SapperResponse>>, outs: Seq<Result<(), Error>>|
        #[trigger] run_trace(init, wrapper, module, handler, run.stage_seq(), pre, post, res, run.pos as int, run.failed, reqs, resps, outs)
}

/// Where each hook stands in the pipeline.
pub proof fn lemma_stage_positions(has_init: bool, has_wrapper: bool, i: int)
    requires
        0 <= i < pipeline(has_init, has_wrapper).len(),
    ensures
        ({
            let p = pipeline(has_init, has_wrapper);
            let hi = handle_index(has_init, has_wrapper);
            &&& p[i] == Stage::GlobalInit ==> has_init && i == 0
            &&& p[i] == Stage::WrapperBefore ==> has_wrapper && i == hi - 2
            &&& p[i] == Stage::ModuleBefore ==> i == hi - 1
            &&& p[i] == Stage::Handle ==> i == hi
            &&& p[i] == Stage::ModuleAfter ==> i == hi + 1
            &&& p[i] == Stage::WrapperAfter ==> has_wrapper && i == hi + 2
        }),
{
    lemma_pipeline_cases(has_init, has_wrapper);
}

/// Runs a request through the pipeline of one route: the global init and the
/// wrapper where they are given, the module's hooks and the handler, in
/// the order of `pipeline`, each on the request as the previous hook left
/// it, the `after` hooks on the handler's response; it stops at the first
/// hook that fails and returns that hook's error, and otherwise returns the
/// response as the `after` hooks left it. Besides the outcome it hands back
/// the run: its hooks and how far it got.
pub fn run_chain<E, I: GlobalInit<E>, W: SAppWrapper<E>, M: SModule<E, H>, H: SHandler<E>>(
    init: Option<&I>,
    wrapper: Option<&W>,
    module: &M,
    handler: &H,
    req: &mut SapperRequest<E>,
) -> (res: (Result<SapperResponse, Error>, Chain))
    ensures
        chain_outcome(opt_deref(init), opt_deref(wrapper), *module, *handler, *old(req), *final(req), res.0, res.1),
        res.0 is Ok <==> res.1.succeeded(),
        res.0 is Err <==> res.1.failed,
{
    let ghost gi = opt_deref(init);
    let ghost gw = opt_deref(wrapper);
    let ghost gm = *module;
    let ghost gh = *handler;
    let ghost pre = *req;
    let mut chain = Chain::new(init.is_some(), wrapper.is_some());
    let ghost hi = handle_index(init is Some, wrapper is Some);
    let mut response: Option<SapperResponse> = None;
    let ghost mut reqs: Seq<SapperRequest<E>> = seq![*req];
    let ghost mut resps: Seq<Option<SapperResponse>> = seq![None];
    let ghost mut outs: Seq<Result<(), Error>> = Seq::empty();
    proof {
        lemma_pipeline_cases(init is Some, wrapper is Some);
    }
    loop
        invariant
            chain.wf(),
            !chain.failed,
            chain.stage_seq() == pipeline(init is Some, wrapper is Some),
            chain.pos > hi ==> response is Some,
            chain.pos <= hi ==> response is None,
            hi == handle_index(init is Some, wrapper is Some),
            gi == opt_deref(init),
            gw == opt_deref(wrapper),
            gm == *module,
            gh == *handler,
            pre == *old(req),
            trace_steps(gi, gw, gm, gh, chain.stage_seq(), reqs, resps, outs, chain.pos as int),
            reqs[0] == pre,
            reqs[chain.pos as int] == *req,
            resps[chain.pos as int] == response,
            forall|i: int| 0 <= i < chain.pos ==> (#[trigger] outs[i]) is Ok,
        ensures
            chain.wf(),
            !chain.failed,
            chain.stage_seq() == pipeline(init is Some, wrapper is Some),
            chain.next_stage() is None,
            chain.pos > hi ==> response is Some,
            gi == opt_deref(init),
            gw == opt_deref(wrapper),
            gm == *module,
            gh == *handler,
            pre == *old(req),
            trace_steps(gi, gw, gm, gh, chain.stage_seq(), reqs, resps, outs, chain.pos as int),
            reqs[0] == pre,
            reqs[chain.pos as int] == *req,
            resps[chain.pos as int] == response,
            forall|i: int| 0 <= i < chain.pos ==> (#[trigger] outs[i]) is Ok,
        decreases chain.stage_seq().len() - chain.pos,
    {
        let stage = match chain.current() {
            None => break,
            Some(s) => s,
        };
        proof {
            lemma_stage_positions(init is Some, wrapper is Some, chain.pos as int);
        }
        let outcome: Result<(), Error> = match stage {
            Stage::GlobalInit => match init {
                Some(i) => i.init(req),
                None => Ok(()),
            },
            Stage::WrapperBefore => match wrapper {
                Some(w) => w.before(req),
                None => Ok(()),
            },
            Stage::ModuleBefore => module.before(req),
            Stage::Handle => match handler.handle(req) {
                Ok(r) => {
                    response = Some(r);
                    Ok(())
                },
                Err(e) => Err(e),
            },
            Stage::ModuleAfter => match &mut response {
                Some(r) => module.after(&*req, r),
                None => Ok(()),
            },
            Stage::WrapperAfter => match (wrapper, &mut response) {
                (Some(w), Some(r)) => w.after(&*req, r),
                _ => Ok(()),
            },
        };
        proof {
            let k = chain.pos as int;
            let reqs2 = reqs.push(*req);
            let resps2 = resps.push(response);
            let outs2 = outs.push(outcome);
            assert forall|i: int| #![trigger outs2[i]] 0 <= i < k + 1 implies hook_step(
                gi,
                gw,
                gm,
                gh,
                chain.stage_seq()[i],
                reqs2[i],
                resps2[i],
                reqs2[i + 1],
                resps2[i + 1],
                outs2[i],
            ) by {
                if i < k {
                    assert(outs2[i] == outs[i]);
                    assert(reqs2[i] == reqs[i] && reqs2[i + 1] == reqs[i + 1]);
                    assert(resps2[i] == resps[i] && resps2[i + 1] == resps[i + 1]);
                }
            }
            assert forall|i: int| 0 <= i < k implies (#[trigger] outs2[i]) is Ok by {
                assert(outs2[i] == outs[i]);
            }
            reqs = reqs2;
            resps = resps2;
            outs = outs2;
        }
        match outcome {
            Ok(()) => {
                chain.record(true);
            },
            Err(e) => {
                chain.record(false);
                proof {
                    assert(run_trace(gi, gw, gm, gh, chain.stage_seq(), pre, *req, Err::<SapperResponse, Error>(e), chain.pos as int, chain.failed, reqs, resps, outs));
                }
                return (Err(e), chain);
            },
        }
    }
    match response {
        Some(r) => {
            proof {
                assert(run_trace(gi, gw, gm, gh, chain.stage_seq(), pre, *req, Ok::<SapperResponse, Error>(r), chain.pos as int, chain.failed, reqs, resps, outs));
            }
            (Ok(r), chain)
        },
        None => {
            proof {
                assert(false);
            }
            (Err(Error::InvalidConfig), chain)
        },
    }
}

/// The module's hooks let every request and every response through
/// unchanged: whatever its `before` and `after` promise, they promise
/// success and no change.
pub open spec fn passes_through<E, H, M: SModule<E, H>>(module: M) -> bool {
    &&& forall|x: SapperRequest<E>, y: SapperRequest<E>, o: Result<(), Error>|
        #[trigger] module.before_rel(x, y, o) ==> o is Ok && y == x
    &&& forall|q: SapperRequest<E>, a: SapperResponse, b: SapperResponse, o: Result<(), Error>|
        #[trigger] module.after_rel(q, a, b, o) ==> o is Ok && b == a
}

/// A route with no global init and no wrapper, whose module hooks let
/// every request and response through unchanged (as the hooks that a
/// module of the framework's users gets by default do), answers exactly as
/// its handler does: same outcome, same effect on the request.
pub proof fn law_plain_route_answers_as_handler<E, I: GlobalInit<E>, W: SAppWrapper<E>, M: SModule<E, H>, H: SHandler<E>>(
    module: M,
    handler: H,
    pre: SapperRequest<E>,
    post: SapperRequest<E>,
    res: Result<SapperResponse, Error>,
    run: Chain,
)
    requires
        passes_through::<E, H, M>(module),
        chain_outcome::<E, I, W, M, H>(None, None, module, handler, pre, post, res, run),
    ensures
        handler.handles(pre, post, res),
{
    lemma_pipeline_cases(false, false);
    let (reqs, resps, outs) = choose|reqs: Seq<SapperRequest<E>>, resps: Seq<Option<SapperResponse>>, outs: Seq<Result<(), Error>>|
        #[trigger] run_trace::<E, I, W, M, H>(None, None, module, handler, run.stage_seq(), pre, post, res, run.pos as int, run.failed, reqs, resps, outs);
    let st = run.stage_seq();
    if run.pos >= 1 || run.failed {
        assert(hook_step::<E, I, W, M, H>(None, None, module, handler, st[0], reqs[0], resps[0], reqs[1], resps[1], outs[0]));
    }
    if run.pos >= 2 || (run.pos == 1 && run.failed) {
        assert(hook_step::<E, I, W, M, H>(None, None, module, handler, st[1], reqs[1], resps[1], reqs[2], resps[2], outs[1]));
    }
    if run.pos >= 3 || (run.pos == 2 && run.failed) {
        assert(hook_step::<E, I, W, M, H>(None, None, module, handler, st[2], reqs[2], resps[2], reqs[3], resps[3], outs[2]));
    }
}


/// A run succeeds only when every hook of the pipeline succeeded: where one
/// of the hooks of the route (the global init, the wrapper's `before` or
/// `after`, the module's `before` or `after`, or the handler) can never
/// succeed, every run of the route fails.
pub proof fn law_run_fails_if_a_hook_cannot_succeed<E, I: GlobalInit<E>, W: SAppWrapper<E>, M: SModule<E, H>, H: SHandler<E>>(
    init: Option<I>,
    wrapper: Option<W>,
    module: M,
    handler: H,
    pre: SapperRequest<E>,
    post: SapperRequest<E>,
    res: Result<SapperResponse, Error>,
    run: Chain,
)
    requires
        chain_outcome(init, wrapper, module, handler, pre, post, res, run),
        (init matches Some(i) && forall|x: SapperRequest<E>, y: SapperRequest<E>| !#[trigger] i.inits(x, y, Ok(())))
            || (wrapper matches Some(w) && forall|x: SapperRequest<E>, y: SapperRequest<E>|
            !#[trigger] w.before_rel(x, y, Ok(())))
            || (forall|x: SapperRequest<E>, y: SapperRequest<E>| !#[trigger] module.before_rel(x, y, Ok(())))
            || (forall|x: SapperRequest<E>, y: SapperRequest<E>, r: SapperResponse|
            !#[trigger] handler.handles(x, y, Ok(r)))
            || (forall|q: SapperRequest<E>, a: SapperResponse, b: SapperResponse|
            !#[trigger] module.after_rel(q, a, b, Ok(())))
            || (wrapper matches Some(w) && forall|q: SapperRequest<E>, a: SapperResponse, b: SapperResponse|
            !#[trigger] w.after_rel(q, a, b, Ok(()))),
    ensures
        res is Err,
{
    if res is Ok {
        let (reqs, resps, outs) = lemma_trace_of(init, wrapper, module, handler, pre, post, res, run);
        let st = run.stage_seq();
        let hi = handle_index(init is Some, wrapper is Some);
        lemma_pipeline_cases(init is Some, wrapper is Some);
        assert(hook_step(init, wrapper, module, handler, st[hi - 1], reqs[hi - 1], resps[hi - 1], reqs[hi], resps[hi], outs[hi - 1]));
        assert(hook_step(init, wrapper, module, handler, st[hi], reqs[hi], resps[hi], reqs[hi + 1], resps[hi + 1], outs[hi]));
        assert(hook_step(init, wrapper, module, handler, st[hi + 1], reqs[hi + 1], resps[hi + 1], reqs[hi + 2], resps[hi + 2], outs[hi + 1]));
        if init is Some {
            assert(hook_step(init, wrapper, module, handler, st[0], reqs[0], resps[0], reqs[1], resps[1], outs[0]));
        }
        assert(outs[hi - 1] is Ok && outs[hi] is Ok && outs[hi + 1] is Ok);
        lemma_ok_is_ok_unit(outs[hi - 1]);
        lemma_ok_is_ok_unit(outs[hi]);
        lemma_ok_is_ok_unit(outs[hi + 1]);
        assert(module.before_rel(reqs[hi - 1], reqs[hi], Ok(())));
        assert(handler.handles(reqs[hi], reqs[hi + 1], Ok(resps[hi + 1]->Some_0)));
        assert(module.after_rel(reqs[hi + 1], resps[hi + 1]->Some_0, resps[hi + 2]->Some_0, Ok(())));
        if init is Some {
            assert(hook_step(init, wrapper, module, handler, st[0], reqs[0], resps[0], reqs[1], resps[1], outs[0]));
            assert(outs[0] is Ok);
            lemma_ok_is_ok_unit(outs[0]);
            assert(init->Some_0.inits(reqs[0], reqs[1], Ok(())));
        }
        if wrapper is Some {
            assert(hook_step(init, wrapper, module, handler, st[hi - 2], reqs[hi - 2], resps[hi - 2], reqs[hi - 1], resps[hi - 1], outs[hi - 2]));
            assert(hook_step(init, wrapper, module, handler, st[hi + 2], reqs[hi + 2], resps[hi + 2], reqs[hi + 3], resps[hi + 3], outs[hi + 2]));
            assert(outs[hi - 2] is Ok && outs[hi + 2] is Ok);
            lemma_ok_is_ok_unit(outs[hi - 2]);
            lemma_ok_is_ok_unit(outs[hi + 2]);
            assert(wrapper->Some_0.before_rel(reqs[hi - 2], reqs[hi - 1], Ok(())));
            assert(wrapper->Some_0.after_rel(reqs[hi + 2], resps[hi + 2]->Some_0, resps[hi + 3]->Some_0, Ok(())));
        }
    }
}

/// A run that fails hands back an error that one of its hooks gave: some
/// hook of the route (the global init, the wrapper's `before` or `after`,
/// the module's `before` or `after`, or the handler) can end with that very
/// error.
pub proof fn law_run_error_comes_from_a_hook<E, I: GlobalInit<E>, W: SAppWrapper<E>, M: SModule<E, H>, H: SHandler<E>>(
    init: Option<I>,
    wrapper: Option<W>,
    module: M,
    handler: H,
    pre: SapperRequest<E>,
    post: SapperRequest<E>,
    res: Result<SapperResponse, Error>,
    run: Chain,
)
    requires
        chain_outcome(init, wrapper, module, handler, pre, post, res, run),
        res is Err,
    ensures
        (init matches Some(i) && exists|x: SapperRequest<E>, y: SapperRequest<E>|
            #[trigger] i.inits(x, y, Err(res->Err_0)))
            || (wrapper matches Some(w) && exists|x: SapperRequest<E>, y: SapperRequest<E>|
            #[trigger] w.before_rel(x, y, Err(res->Err_0)))
            || (exists|x: SapperRequest<E>, y: SapperRequest<E>| #[trigger] module.before_rel(x, y, Err(res->Err_0)))
            || (exists|x: SapperRequest<E>, y: SapperRequest<E>| #[trigger] handler.handles(x, y, Err(res->Err_0)))
            || (exists|q: SapperRequest<E>, a: SapperResponse, b: SapperResponse|
            #[trigger] module.after_rel(q, a, b, Err(res->Err_0)))
            || (wrapper matches Some(w) && exists|q: SapperRequest<E>, a: SapperResponse, b: SapperResponse|
            #[trigger] w.after_rel(q, a, b, Err(res->Err_0))),
{
    let (reqs, resps, outs) = lemma_trace_of(init, wrapper, module, handler, pre, post, res, run);
    let st = run.stage_seq();
    let p = run.pos as int;
    lemma_pipeline_cases(init is Some, wrapper is Some);
    assert(hook_step(init, wrapper, module, handler, st[p], reqs[p], resps[p], reqs[p + 1], resps[p + 1], outs[p]));
    let e = res->Err_0;
    match st[p] {
        Stage::GlobalInit => {
            let i = init->Some_0;
            assert(i.inits(reqs[p], reqs[p + 1], Err(e)));
        },
        Stage::WrapperBefore => {
            let w = wrapper->Some_0;
            assert(w.before_rel(reqs[p], reqs[p + 1], Err(e)));
        },
        Stage::ModuleBefore => {
            assert(module.before_rel(reqs[p], reqs[p + 1], Err(e)));
        },
        Stage::Handle => {
            assert(handler.handles(reqs[p], reqs[p + 1], Err(e)));
        },
        Stage::ModuleAfter => {
            assert(module.after_rel(reqs[p], resps[p]->Some_0, resps[p + 1]->Some_0, Err(e)));
        },
        Stage::WrapperAfter => {
            let w = wrapper->Some_0;
            assert(w.after_rel(reqs[p], resps[p]->Some_0, resps[p + 1]->Some_0, Err(e)));
        },
    }
}

/// A success carries nothing.
proof fn lemma_ok_is_ok_unit(o: Result<(), Error>)
    requires
        o is Ok,
    ensures
        o == Ok::<(), Error>(()),
{
    match o {
        Ok(u) => {
            assert(u == ());
        },
        Err(_) => {},
    }
}

/// The trace of a run.
proof fn lemma_trace_of<E, I: GlobalInit<E>, W: SAppWrapper<E>, M: SModule<E, H>, H: SHandler<E>>(
    init: Option<I>,
    wrapper: Option<W>,
    module: M,
    handler: H,
    pre: SapperRequest<E>,
    post: SapperRequest<E>,
    res: Result<SapperResponse, Error>,
    run: Chain,
) -> (t: (Seq<SapperRequest<E>>, Seq<Option<SapperResponse>>, Seq<Result<(), Error>>))
    requires
        chain_outcome(init, wrapper, module, handler, pre, post, res, run),
    ensures
        run_trace(init, wrapper, module, handler, run.stage_seq(), pre, post, res, run.pos as int, run.failed, t.0, t.1, t.2),
        run.wf(),
        run.next_stage() is None,
        run.stage_seq() == pipeline(init is Some, wrapper is Some),
{
    choose|reqs: Seq<SapperRequest<E>>, resps: Seq<Option<SapperResponse>>, outs: Seq<Result<(), Error>>|
        #[trigger] run_trace(init, wrapper, module, handler, run.stage_seq(), pre, post, res, run.pos as int, run.failed, reqs, resps, outs)
}

} // verus!
