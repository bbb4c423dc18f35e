use sapper::sapp::{push_decimal, SApp};
use sapper::statics::{static_file_path, static_mime};
use sapper::target::split_target;

type App = SApp<(), (), (), (), ()>;

#[test]
fn split_plain_path() {
    let (path, query) = split_target("/users/list");
    assert_eq!(path, "/users/list");
    assert_eq!(query, None);
}

#[test]
fn split_path_and_query() {
    let (path, query) = split_target("/where?q=now");
    assert_eq!(path, "/where");
    assert_eq!(query, Some("q=now".to_string()));
}

#[test]
fn split_keeps_only_text_up_to_second_mark() {
    let (path, query) = split_target("/a?b=1?c=2");
    assert_eq!(path, "/a");
    assert_eq!(query, Some("b=1".to_string()));
}

#[test]
fn split_empty_query_and_empty_path() {
    let (path, query) = split_target("?");
    assert_eq!(path, "");
    assert_eq!(query, Some(String::new()));
    let (path, query) = split_target("/x?");
    assert_eq!(path, "/x");
    assert_eq!(query, Some(String::new()));
}

#[test]
fn split_non_ascii_target() {
    let (path, query) = split_target("/caf\u{e9}?n=\u{fc}");
    assert_eq!(path, "/caf\u{e9}");
    assert_eq!(query, Some("n=\u{fc}".to_string()));
}

#[test]
fn split_rejoins_with_one_mark() {
    let target = "/search?term=rust";
    let (path, query) = split_target(target);
    assert_eq!(format!("{}?{}", path, query.unwrap()), target);
}

#[test]
fn static_path_for_directory() {
    assert_eq!(static_file_path("/"), "static//index.html");
    assert_eq!(static_file_path("/docs/"), "static//docs/index.html");
}

#[test]
fn static_path_for_file() {
    assert_eq!(static_file_path("/css/site.css"), "static//css/site.css");
    assert_eq!(static_file_path("x"), "static/x");
}

#[test]
fn static_mime_by_extension() {
    assert_eq!(static_mime("static/index.html"), "text/html");
    assert_eq!(static_mime("static/app.js"), "text/javascript");
}

#[test]
fn static_mime_default() {
    assert_eq!(static_mime("static/README"), "application/octet-stream");
    assert_eq!(static_mime("static/data.unknownext"), "application/octet-stream");
}

#[test]
fn decimal_numerals() {
    let mut s = String::new();
    push_decimal(&mut s, 0);
    assert_eq!(s, "0");
    let mut s = String::from("port ");
    push_decimal(&mut s, 1337);
    assert_eq!(s, "port 1337");
    let mut s = String::new();
    push_decimal(&mut s, u32::MAX);
    assert_eq!(s, "4294967295");
    let mut s = String::new();
    push_decimal(&mut s, 10);
    assert_eq!(s, "10");
}

#[test]
fn listen_addr_joins_host_and_port() {
    let mut app = App::new();
    app.address("127.0.0.1").port(1337);
    assert_eq!(app.listen_addr(), "127.0.0.1:1337");
}

#[test]
fn new_app_defaults() {
    let app = App::new();
    assert_eq!(app.address, "");
    assert_eq!(app.port, 0);
    assert!(app.static_service);
    assert!(app.wrapper.is_none());
    assert!(app.init_closure.is_none());
    assert_eq!(app.routers.routes.len(), 0);
    assert_eq!(app.listen_addr(), ":0");
}

#[test]
fn builder_sets_fields() {
    let mut app = App::new();
    app.address("0.0.0.0").port(8080).static_service(false);
    assert_eq!(app.address, "0.0.0.0");
    assert_eq!(app.port, 8080);
    assert!(!app.static_service);
}
