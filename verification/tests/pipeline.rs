use std::cell::RefCell;
use std::rc::Rc;

use sapper::chain::{run_chain, Chain, GlobalInit, SAppWrapper, SHandler, Stage};
use sapper::error::Error;
use sapper::request::{HttpVersion, Method, SapperRequest};
use sapper::response::SapperResponse;
use sapper::router::{SModule, SRouter};
use sapper::sapp::SApp;

type Log = Rc<RefCell<Vec<String>>>;

fn note(log: &Log, what: &str) {
    log.borrow_mut().push(what.to_string());
}

struct Init {
    log: Log,
    fail: bool,
}

impl GlobalInit<()> for Init {
    fn init(&self, _req: &mut SapperRequest<()>) -> Result<(), Error> {
        note(&self.log, "init");
        if self.fail { Err(Error::Custom("init".to_string())) } else { Ok(()) }
    }
}

struct Wrapper {
    log: Log,
    fail_before: bool,
}

impl SAppWrapper<()> for Wrapper {
    fn before(&self, _req: &mut SapperRequest<()>) -> Result<(), Error> {
        note(&self.log, "wrapper.before");
        if self.fail_before { Err(Error::Prompt("wrapper".to_string())) } else { Ok(()) }
    }

    fn after(&self, _req: &SapperRequest<()>, res: &mut SapperResponse) -> Result<(), Error> {
        note(&self.log, "wrapper.after");
        res.add_header("X-Wrapped".to_string(), "yes".to_string());
        Ok(())
    }
}

#[derive(Clone)]
struct Handler {
    log: Log,
    name: &'static str,
    fail: bool,
}

impl SHandler<()> for Handler {
    fn handle(&self, _req: &mut SapperRequest<()>) -> Result<SapperResponse, Error> {
        note(&self.log, self.name);
        if self.fail {
            return Err(Error::Fatal("handler".to_string()));
        }
        let mut res = SapperResponse::new();
        res.write_body(self.name.as_bytes().to_vec());
        Ok(res)
    }
}

struct Module {
    log: Log,
    fail_before: bool,
    fail_router: bool,
    routes: Vec<(Method, &'static str, &'static str)>,
}

impl SModule<(), Handler> for Module {
    fn before(&self, _req: &mut SapperRequest<()>) -> Result<(), Error> {
        note(&self.log, "module.before");
        if self.fail_before { Err(Error::Warning("module".to_string())) } else { Ok(()) }
    }

    fn after(&self, _req: &SapperRequest<()>, res: &mut SapperResponse) -> Result<(), Error> {
        note(&self.log, "module.after");
        res.set_status(201);
        Ok(())
    }

    fn router(&self, router: &mut SRouter<Handler>) -> Result<(), Error> {
        if self.fail_router {
            return Err(Error::InvalidRouterConfig);
        }
        for (method, glob, name) in self.routes.iter() {
            router.route(method.clone(), glob, Handler { log: self.log.clone(), name, fail: false });
        }
        Ok(())
    }
}

/// A module whose hooks let everything through.
struct Plain {
    log: Log,
}

impl SModule<(), Handler> for Plain {
    fn before(&self, _req: &mut SapperRequest<()>) -> Result<(), Error> {
        Ok(())
    }

    fn after(&self, _req: &SapperRequest<()>, _res: &mut SapperResponse) -> Result<(), Error> {
        Ok(())
    }

    fn router(&self, router: &mut SRouter<Handler>) -> Result<(), Error> {
        router.route(Method::Get, "/plain", Handler { log: self.log.clone(), name: "plain", fail: false });
        Ok(())
    }
}

fn request(method: Method, path: &str) -> SapperRequest<()> {
    SapperRequest::new(method, HttpVersion::Http11, Vec::new(), path.to_string(), None, None, ())
}

fn stages_of(c: &Chain) -> Vec<Stage> {
    (0..c.stage_count()).map(|i| c.stage_at(i)).collect()
}

fn logged(log: &Log) -> Vec<String> {
    log.borrow().clone()
}

fn module(log: &Log, routes: Vec<(Method, &'static str, &'static str)>) -> Module {
    Module { log: log.clone(), fail_before: false, fail_router: false, routes }
}

#[test]
fn chain_runs_hooks_in_nesting_order() {
    let log: Log = Rc::new(RefCell::new(Vec::new()));
    let init = Init { log: log.clone(), fail: false };
    let wrapper = Wrapper { log: log.clone(), fail_before: false };
    let m = module(&log, Vec::new());
    let h = Handler { log: log.clone(), name: "handler", fail: false };
    let mut req = request(Method::Get, "/");
    let (res, run) = run_chain(Some(&init), Some(&wrapper), &m, &h, &mut req);
    assert_eq!(
        logged(&log),
        vec!["init", "wrapper.before", "module.before", "handler", "module.after", "wrapper.after"]
    );
    let res = res.unwrap();
    assert_eq!(res.status, 201);
    assert_eq!(res.body, Some(b"handler".to_vec()));
    assert_eq!(res.headers.len(), 1);
    assert_eq!(res.headers[0].name, "X-Wrapped");
    assert_eq!(run.pos, 6);
    assert!(!run.failed);
}

#[test]
fn chain_without_init_and_wrapper() {
    let log: Log = Rc::new(RefCell::new(Vec::new()));
    let m = module(&log, Vec::new());
    let h = Handler { log: log.clone(), name: "handler", fail: false };
    let mut req = request(Method::Get, "/");
    let (res, run) = run_chain::<(), Init, Wrapper, Module, Handler>(None, None, &m, &h, &mut req);
    assert_eq!(logged(&log), vec!["module.before", "handler", "module.after"]);
    assert!(res.is_ok());
    assert_eq!(stages_of(&run), vec![Stage::ModuleBefore, Stage::Handle, Stage::ModuleAfter]);
    assert_eq!(run.pos, 3);
}

#[test]
fn chain_stops_at_first_failure() {
    let log: Log = Rc::new(RefCell::new(Vec::new()));
    let init = Init { log: log.clone(), fail: false };
    let wrapper = Wrapper { log: log.clone(), fail_before: false };
    let mut m = module(&log, Vec::new());
    m.fail_before = true;
    let h = Handler { log: log.clone(), name: "handler", fail: false };
    let mut req = request(Method::Get, "/");
    let (res, run) = run_chain(Some(&init), Some(&wrapper), &m, &h, &mut req);
    assert_eq!(logged(&log), vec!["init", "wrapper.before", "module.before"]);
    assert_eq!(res.err(), Some(Error::Warning("module".to_string())));
    assert!(run.failed);
    assert_eq!(run.pos, 2);
    assert_eq!(run.stage_at(run.pos), Stage::ModuleBefore);
}

#[test]
fn chain_handler_error_skips_after_hooks() {
    let log: Log = Rc::new(RefCell::new(Vec::new()));
    let wrapper = Wrapper { log: log.clone(), fail_before: false };
    let m = module(&log, Vec::new());
    let h = Handler { log: log.clone(), name: "handler", fail: true };
    let mut req = request(Method::Get, "/");
    let (res, run) = run_chain::<(), Init, Wrapper, Module, Handler>(None, Some(&wrapper), &m, &h, &mut req);
    assert_eq!(logged(&log), vec!["wrapper.before", "module.before", "handler"]);
    assert_eq!(res.err(), Some(Error::Fatal("handler".to_string())));
    assert_eq!(run.stage_at(run.pos), Stage::Handle);
}

#[test]
fn chain_init_failure_runs_nothing_else() {
    let log: Log = Rc::new(RefCell::new(Vec::new()));
    let init = Init { log: log.clone(), fail: true };
    let m = module(&log, Vec::new());
    let h = Handler { log: log.clone(), name: "handler", fail: false };
    let mut req = request(Method::Get, "/");
    let (res, run) = run_chain::<(), Init, Wrapper, Module, Handler>(Some(&init), None, &m, &h, &mut req);
    assert_eq!(logged(&log), vec!["init"]);
    assert_eq!(res.err(), Some(Error::Custom("init".to_string())));
    assert_eq!(run.pos, 0);
}

#[test]
fn pass_through_module_answers_as_handler() {
    let log: Log = Rc::new(RefCell::new(Vec::new()));
    let mut app: SApp<(), Init, Wrapper, Plain, Handler> = SApp::new();
    app.add_module(Plain { log: log.clone() }).unwrap();
    let mut req = request(Method::Get, "/plain");
    let res = app.routers.handle_method(&mut req).unwrap();
    assert_eq!(res.body, Some(b"plain".to_vec()));
    assert_eq!(logged(&log), vec!["plain"]);
}

#[test]
fn chain_state_machine_steps() {
    let mut c = Chain::new(true, false);
    assert_eq!(stages_of(&c), vec![Stage::GlobalInit, Stage::ModuleBefore, Stage::Handle, Stage::ModuleAfter]);
    assert_eq!(
        stages_of(&Chain::new(true, true)),
        vec![
            Stage::GlobalInit,
            Stage::WrapperBefore,
            Stage::ModuleBefore,
            Stage::Handle,
            Stage::ModuleAfter,
            Stage::WrapperAfter
        ]
    );
    assert_eq!(c.current(), Some(Stage::GlobalInit));
    c.record(true);
    assert_eq!(c.current(), Some(Stage::ModuleBefore));
    c.record(false);
    assert_eq!(c.current(), None);
    assert!(c.failed);
    assert_eq!(c.pos, 1);
}

#[test]
fn dispatch_finds_route_by_method_and_path() {
    let log: Log = Rc::new(RefCell::new(Vec::new()));
    let mut app: SApp<(), Init, Wrapper, Module, Handler> = SApp::new();
    app.add_module(module(&log, vec![(Method::Get, "/hello", "hello"), (Method::Post, "/hello", "posted")]))
        .unwrap();
    assert_eq!(app.routers.routes.len(), 2);
    let mut req = request(Method::Post, "/hello");
    let res = app.routers.handle_method(&mut req).unwrap();
    assert_eq!(res.body, Some(b"posted".to_vec()));
    assert_eq!(logged(&log), vec!["module.before", "posted", "module.after"]);
}

#[test]
fn dispatch_unknown_path_is_not_found() {
    let log: Log = Rc::new(RefCell::new(Vec::new()));
    let mut app: SApp<(), Init, Wrapper, Module, Handler> = SApp::new();
    app.add_module(module(&log, vec![(Method::Get, "/hello", "hello")])).unwrap();
    let mut req = request(Method::Get, "/nope");
    assert_eq!(app.routers.handle_method(&mut req).err(), Some(Error::NotFound("/nope".to_string())));
    let mut req = request(Method::Delete, "/hello");
    assert_eq!(app.routers.handle_method(&mut req).err(), Some(Error::NotFound("/hello".to_string())));
    assert!(logged(&log).is_empty());
}

#[test]
fn dispatch_same_pattern_twice_keeps_the_later_route() {
    let log: Log = Rc::new(RefCell::new(Vec::new()));
    let mut app: SApp<(), Init, Wrapper, Module, Handler> = SApp::new();
    app.add_module(module(&log, vec![(Method::Get, "/x", "first"), (Method::Get, "/x", "second")])).unwrap();
    let mut req = request(Method::Get, "/x");
    let res = app.routers.handle_method(&mut req).unwrap();
    assert_eq!(res.body, Some(b"second".to_vec()));
}

#[test]
fn dispatch_reads_segment_parameters() {
    let log: Log = Rc::new(RefCell::new(Vec::new()));
    let mut app: SApp<(), Init, Wrapper, Module, Handler> = SApp::new();
    app.add_module(module(&log, vec![(Method::Get, "/user/:id/post/:pid", "post"), (Method::Get, "/user/:id", "user")]))
        .unwrap();
    let mut req = request(Method::Get, "/user/42/post/7");
    let res = app.routers.handle_method(&mut req).unwrap();
    assert_eq!(res.body, Some(b"post".to_vec()));
    assert_eq!(
        req.path_params(),
        &vec![("id".to_string(), "42".to_string()), ("pid".to_string(), "7".to_string())]
    );
    let mut req = request(Method::Get, "/user/ann");
    let res = app.routers.handle_method(&mut req).unwrap();
    assert_eq!(res.body, Some(b"user".to_vec()));
    assert_eq!(req.path_params(), &vec![("id".to_string(), "ann".to_string())]);
    let mut req = request(Method::Get, "/user/ann/extra");
    assert_eq!(app.routers.handle_method(&mut req).err(), Some(Error::NotFound("/user/ann/extra".to_string())));
    assert!(req.path_params().is_empty());
}

#[test]
fn dispatch_prefers_static_segments_and_reads_star_rest() {
    let log: Log = Rc::new(RefCell::new(Vec::new()));
    let mut app: SApp<(), Init, Wrapper, Module, Handler> = SApp::new();
    app.add_module(module(
        &log,
        vec![(Method::Get, "/files/*rest", "files"), (Method::Get, "/files/:name", "one"), (Method::Get, "/files/index", "index")],
    ))
    .unwrap();
    let mut req = request(Method::Get, "/files/index");
    assert_eq!(app.routers.handle_method(&mut req).unwrap().body, Some(b"index".to_vec()));
    let mut req = request(Method::Get, "/files/a.txt");
    assert_eq!(app.routers.handle_method(&mut req).unwrap().body, Some(b"one".to_vec()));
    assert_eq!(req.path_params(), &vec![("name".to_string(), "a.txt".to_string())]);
    let mut req = request(Method::Get, "/files/a/b/c");
    assert_eq!(app.routers.handle_method(&mut req).unwrap().body, Some(b"files".to_vec()));
    assert_eq!(req.path_params(), &vec![("rest".to_string(), "a/b/c".to_string())]);
}

#[test]
fn dispatch_non_ascii_path_is_not_found() {
    let log: Log = Rc::new(RefCell::new(Vec::new()));
    let mut app: SApp<(), Init, Wrapper, Module, Handler> = SApp::new();
    app.add_module(module(&log, vec![(Method::Get, "/:name", "any")])).unwrap();
    let mut req = request(Method::Get, "/caf\u{e9}");
    assert_eq!(app.routers.handle_method(&mut req).err(), Some(Error::NotFound("/caf\u{e9}".to_string())));
    assert!(logged(&log).is_empty());
}

#[test]
fn dispatch_given_route_stores_parameters_and_runs_it() {
    let log: Log = Rc::new(RefCell::new(Vec::new()));
    let mut app: SApp<(), Init, Wrapper, Module, Handler> = SApp::new();
    app.add_module(module(&log, vec![(Method::Get, "/a", "a"), (Method::Get, "/b", "b")])).unwrap();
    let mut req = request(Method::Get, "/anything");
    let res = app.routers.dispatch(&mut req, Some((1, vec![("k".to_string(), "v".to_string())]))).unwrap();
    assert_eq!(res.body, Some(b"b".to_vec()));
    assert_eq!(req.path_params(), &vec![("k".to_string(), "v".to_string())]);
    let mut req = request(Method::Get, "/anything");
    assert_eq!(app.routers.dispatch(&mut req, None).err(), Some(Error::NotFound("/anything".to_string())));
}

#[test]
fn module_path_with_nul_is_refused() {
    let log: Log = Rc::new(RefCell::new(Vec::new()));
    let mut app: SApp<(), Init, Wrapper, Module, Handler> = SApp::new();
    app.add_module(module(&log, vec![(Method::Get, "/a", "a")])).unwrap();
    assert_eq!(app.add_module(module(&log, vec![(Method::Get, "/b\0", "b")])).err(), Some(Error::InvalidRouterConfig));
    assert_eq!(app.routers.routes.len(), 1);
    assert_eq!(app.routers.tables.len(), 1);
}

#[test]
fn dispatch_extension_methods() {
    let log: Log = Rc::new(RefCell::new(Vec::new()));
    let mut app: SApp<(), Init, Wrapper, Module, Handler> = SApp::new();
    app.add_module(module(&log, vec![(Method::Extension("PURGE".to_string()), "/cache", "purge")])).unwrap();
    let mut req = request(Method::Extension("PURGE".to_string()), "/cache");
    assert!(app.routers.handle_method(&mut req).is_ok());
    let mut req = request(Method::Extension("LOCK".to_string()), "/cache");
    assert!(app.routers.handle_method(&mut req).is_err());
}

#[test]
fn wrapper_applies_to_modules_added_after_it() {
    let log: Log = Rc::new(RefCell::new(Vec::new()));
    let mut app: SApp<(), Init, Wrapper, Module, Handler> = SApp::new();
    app.add_module(module(&log, vec![(Method::Get, "/early", "early")])).unwrap();
    app.with_wrapper(Wrapper { log: log.clone(), fail_before: false });
    app.add_module(module(&log, vec![(Method::Get, "/late", "late")])).unwrap();
    assert!(app.routers.routes[0].wrapper.is_none());
    assert!(app.routers.routes[1].wrapper.is_some());

    let mut req = request(Method::Get, "/early");
    app.routers.handle_method(&mut req).unwrap();
    assert_eq!(logged(&log), vec!["module.before", "early", "module.after"]);
    log.borrow_mut().clear();

    let mut req = request(Method::Get, "/late");
    app.routers.handle_method(&mut req).unwrap();
    assert_eq!(logged(&log), vec!["wrapper.before", "module.before", "late", "module.after", "wrapper.after"]);
}

#[test]
fn init_global_applies_to_later_modules() {
    let log: Log = Rc::new(RefCell::new(Vec::new()));
    let mut app: SApp<(), Init, Wrapper, Module, Handler> = SApp::new();
    app.init_global(Init { log: log.clone(), fail: false });
    app.add_module(module(&log, vec![(Method::Get, "/", "root")])).unwrap();
    let mut req = request(Method::Get, "/");
    app.routers.handle_method(&mut req).unwrap();
    assert_eq!(logged(&log), vec!["init", "module.before", "root", "module.after"]);
}

#[test]
fn srouter_keeps_declaration_order() {
    let log: Log = Rc::new(RefCell::new(Vec::new()));
    let mut r: SRouter<Handler> = SRouter::new();
    r.route(Method::Get, "/one", Handler { log: log.clone(), name: "one", fail: false });
    r.route(Method::Put, "/two", Handler { log: log.clone(), name: "two", fail: false });
    let routes = r.into_router();
    assert_eq!(routes.len(), 2);
    assert_eq!(routes[0].1, "/one");
    assert_eq!(routes[1].1, "/two");
    assert!(matches!(routes[1].0, Method::Put));
}

#[test]
fn pass_through_module_hooks_change_nothing() {
    let log: Log = Rc::new(RefCell::new(Vec::new()));
    let p = Plain { log: log.clone() };
    let mut req = request(Method::Get, "/plain");
    assert_eq!(p.before(&mut req), Ok(()));
    assert_eq!(req.path, "/plain");
    let mut res = SapperResponse::new();
    res.write_body(b"kept".to_vec());
    assert_eq!(p.after(&req, &mut res), Ok(()));
    assert_eq!(res.body, Some(b"kept".to_vec()));
    assert_eq!(logged(&log), Vec::<String>::new());
}

#[test]
fn add_module_returns_the_app_for_chaining() {
    let log: Log = Rc::new(RefCell::new(Vec::new()));
    let mut app: SApp<(), Init, Wrapper, Module, Handler> = SApp::new();
    app.add_module(module(&log, vec![(Method::Get, "/a", "a")]))
        .unwrap()
        .add_module(module(&log, vec![(Method::Get, "/b", "b")]))
        .unwrap()
        .port(8080);
    assert_eq!(app.port, 8080);
    assert_eq!(app.routers.routes.len(), 2);
    assert_eq!(app.routers.routes[1].glob, "/b");
}

#[test]
fn routes_of_another_method_leave_answers_alone() {
    let log: Log = Rc::new(RefCell::new(Vec::new()));
    let mut app: SApp<(), Init, Wrapper, Module, Handler> = SApp::new();
    app.add_module(module(&log, vec![(Method::Get, "/:page", "page")])).unwrap();
    let mut req = request(Method::Get, "/z");
    assert_eq!(app.routers.handle_method(&mut req).unwrap().body, Some(b"page".to_vec()));
    app.add_module(module(&log, vec![(Method::Post, "/z", "posted")])).unwrap();
    let mut req = request(Method::Get, "/z");
    assert_eq!(app.routers.handle_method(&mut req).unwrap().body, Some(b"page".to_vec()));
    assert_eq!(req.path_params(), &vec![("page".to_string(), "z".to_string())]);
    assert_eq!(app.routers.tables.len(), 2);
}
