use sapper::error::Error;
use sapper::handler::{
    not_found_body, Next, ReadOutcome, RequestHandler, RequestUri, ResponsePlan, WriteOutcome, WritePlan,
};
use sapper::request::{Header, HttpVersion, Method};
use sapper::response::SapperResponse;

fn head_of(plan: ResponsePlan) -> sapper::handler::ResponseHead {
    match plan {
        ResponsePlan::Head(h) => h,
        ResponsePlan::LookupStatic(p) => panic!("unexpected static lookup of {}", p),
    }
}

fn answered(body: Option<&[u8]>) -> RequestHandler {
    let mut h = RequestHandler::new(true);
    let mut res = SapperResponse::new();
    res.add_header("X-Id".to_string(), "7".to_string());
    if let Some(b) = body {
        res.write_body(b.to_vec());
    }
    h.set_response(Ok(res));
    h
}

#[test]
fn new_handler_defaults() {
    let h = RequestHandler::new(false);
    assert!(!h.static_service);
    assert_eq!(h.path, "");
    assert!(matches!(h.method, Method::Get));
    assert_eq!(h.version, HttpVersion::Http11);
    assert_eq!(h.buf, vec![0u8; 2048]);
    assert!(h.remote_addr.is_none());
    assert!(h.body.is_empty());
    assert!(!h.has_body);
    assert_eq!(h.write_pos, 0);
    assert_eq!(h.response.as_ref().err(), Some(&Error::NotFound("/".to_string())));
    assert!(h.static_file.is_none());
}

#[test]
fn request_without_body_is_answered_at_once() {
    let mut h = RequestHandler::new(true);
    let headers = vec![Header::new("Host".to_string(), "example.org".to_string())];
    let (next, req) = h.on_request(
        RequestUri::AbsolutePath("/where?q=now".to_string()),
        Method::Get,
        HttpVersion::Http11,
        headers,
        false,
        false,
        Some("192.0.2.1:40000".to_string()),
        (),
    );
    assert_eq!(next, Next::Write);
    let req = req.unwrap();
    assert_eq!(req.path(), "/where");
    assert_eq!(req.query(), Some("q=now"));
    assert_eq!(req.headers().len(), 1);
    assert!(req.body_ref().is_none());
    assert_eq!(req.remote_addr(), Some("192.0.2.1:40000".to_string()));
    assert!(!h.has_body);
}

#[test]
fn request_with_body_is_kept_until_the_body_ends() {
    let mut h = RequestHandler::new(true);
    let (next, req) = h.on_request(
        RequestUri::AbsolutePath("/upload?kind=text".to_string()),
        Method::Post,
        HttpVersion::Http10,
        Vec::new(),
        true,
        false,
        Some("192.0.2.7:41000".to_string()),
        (),
    );
    assert_eq!(next, Next::ReadAndWrite);
    assert!(req.is_none());
    assert!(h.has_body);
    assert_eq!(h.path, "/upload?kind=text");

    h.buf[..5].copy_from_slice(b"hello");
    let (next, req) = h.on_request_readable(ReadOutcome::Read(5), ());
    assert_eq!(next, Next::ReadAndWrite);
    assert!(req.is_none());

    let (next, _) = h.on_request_readable(ReadOutcome::WouldBlock, ());
    assert_eq!(next, Next::ReadAndWrite);

    h.buf[..6].copy_from_slice(b" world");
    let (next, _) = h.on_request_readable(ReadOutcome::Read(6), ());
    assert_eq!(next, Next::ReadAndWrite);
    assert_eq!(h.body, b"hello world".to_vec());

    let (next, req) = h.on_request_readable(ReadOutcome::Read(0), ());
    assert_eq!(next, Next::Write);
    let req = req.unwrap();
    assert!(matches!(req.method(), Method::Post));
    assert_eq!(req.version(), HttpVersion::Http10);
    assert_eq!(req.path(), "/upload");
    assert_eq!(req.query(), Some("kind=text"));
    assert_eq!(req.remote_addr(), Some("192.0.2.7:41000".to_string()));
    assert_eq!(req.body(), Some(b"hello world".to_vec()));
}

#[test]
fn content_type_alone_announces_a_body() {
    let mut h = RequestHandler::new(true);
    let (next, req) =
        h.on_request(RequestUri::AbsolutePath("/f".to_string()), Method::Put, HttpVersion::Http11, Vec::new(), false, true, None, ());
    assert_eq!(next, Next::ReadAndWrite);
    assert!(req.is_none());
}

#[test]
fn failed_read_ends_the_connection() {
    let mut h = RequestHandler::new(true);
    h.on_request(RequestUri::AbsolutePath("/f".to_string()), Method::Post, HttpVersion::Http11, Vec::new(), true, true, None, ());
    let (next, req) = h.on_request_readable(ReadOutcome::Failed, ());
    assert_eq!(next, Next::End);
    assert!(req.is_none());
}

#[test]
fn reads_without_announced_body_go_on_to_write() {
    let mut h = RequestHandler::new(true);
    let (next, req) = h.on_request_readable(ReadOutcome::Read(0), ());
    assert_eq!(next, Next::Write);
    assert!(req.is_none());
}

#[test]
fn other_targets_are_not_answered() {
    let mut h = RequestHandler::new(true);
    let (next, req) = h.on_request(RequestUri::Star, Method::Options, HttpVersion::Http11, Vec::new(), false, false, None, ());
    assert_eq!(next, Next::Write);
    assert!(req.is_none());
    let (next, req) = h.on_request(
        RequestUri::Authority("example.org:443".to_string()),
        Method::Connect,
        HttpVersion::Http11,
        Vec::new(),
        false,
        false,
        Some("192.0.2.1:40000".to_string()),
        (),
    );
    assert_eq!(next, Next::Write);
    assert!(req.is_none());
}

#[test]
fn answered_response_head_and_body_writes() {
    let mut h = answered(Some(b"0123456789"));
    let head = head_of(h.on_response());
    assert_eq!(head.status, Some(200));
    assert_eq!(head.headers.len(), 2);
    assert_eq!(head.headers[0].name, "Content-Type");
    assert_eq!(head.headers[0].value, "text/plain; charset=utf-8");
    assert_eq!(head.headers[1].name, "X-Id");
    assert_eq!(head.content_length, Some(10));
    assert_eq!(head.next, Next::Write);

    match h.write_plan() {
        WritePlan::Bytes(b) => assert_eq!(b, b"0123456789"),
        _ => panic!("expected bytes"),
    }
    assert_eq!(h.after_write(WriteOutcome::Wrote(4)), Next::Write);
    match h.write_plan() {
        WritePlan::Bytes(b) => assert_eq!(b, b"456789"),
        _ => panic!("expected bytes"),
    }
    assert_eq!(h.after_write(WriteOutcome::WouldBlock), Next::Write);
    assert_eq!(h.after_write(WriteOutcome::Wrote(6)), Next::Write);
    match h.write_plan() {
        WritePlan::Bytes(b) => assert!(b.is_empty()),
        _ => panic!("expected bytes"),
    }
    assert_eq!(h.after_write(WriteOutcome::Wrote(0)), Next::End);
    assert_eq!(h.write_pos, 10);
}

#[test]
fn failed_write_ends_the_connection() {
    let mut h = answered(Some(b"abc"));
    assert_eq!(h.after_write(WriteOutcome::Failed), Next::End);
    assert_eq!(h.write_pos, 0);
}

#[test]
fn answer_without_body_announces_nothing() {
    let h = answered(None);
    let head = head_of(h.on_response());
    assert_eq!(head.content_length, None);
    assert!(matches!(h.write_plan(), WritePlan::Finish));
}

#[test]
fn not_found_without_static_service() {
    let mut h = RequestHandler::new(false);
    h.set_response(Err(Error::NotFound("/missing".to_string())));
    let head = head_of(h.on_response());
    assert_eq!(head.status, Some(404));
    assert!(head.headers.is_empty());
    assert_eq!(head.content_length, Some(13));
    assert_eq!(head.next, Next::Write);
    assert!(matches!(h.write_plan(), WritePlan::NotFoundText));
    assert_eq!(not_found_body(), b"404 Not Found".to_vec());
    assert_eq!(not_found_body().len() as u64, head.content_length.unwrap());
}

#[test]
fn not_found_with_static_file() {
    let mut h = RequestHandler::new(true);
    h.set_response(Err(Error::NotFound("/site.css".to_string())));
    match h.on_response() {
        ResponsePlan::LookupStatic(p) => assert_eq!(p, "/site.css"),
        _ => panic!("expected a static lookup"),
    }
    let head = h.on_static_file(Some((b"body{}".to_vec(), "text/css".to_string())));
    assert_eq!(head.status, None);
    assert_eq!(head.headers.len(), 1);
    assert_eq!(head.headers[0].name, "Content-Type");
    assert_eq!(head.headers[0].value, "text/css");
    assert_eq!(head.content_length, Some(6));
    match h.write_plan() {
        WritePlan::Bytes(b) => assert_eq!(b, b"body{}"),
        _ => panic!("expected bytes"),
    }
}

#[test]
fn not_found_without_static_file() {
    let mut h = RequestHandler::new(true);
    h.set_response(Err(Error::NotFound("/gone".to_string())));
    let head = h.on_static_file(None);
    assert_eq!(head.status, Some(404));
    assert_eq!(head.content_length, Some(13));
    assert!(h.static_file.is_none());
    assert!(matches!(h.write_plan(), WritePlan::NotFoundText));
}

#[test]
fn fatal_error_is_a_server_error() {
    let mut h = RequestHandler::new(true);
    h.set_response(Err(Error::Fatal("db down".to_string())));
    let head = head_of(h.on_response());
    assert_eq!(head.status, Some(500));
    assert_eq!(head.content_length, None);
    assert_eq!(head.next, Next::End);
    assert!(matches!(h.write_plan(), WritePlan::Finish));
}

#[test]
fn other_errors_leave_the_head_alone() {
    for e in vec![
        Error::InvalidConfig,
        Error::InvalidRouterConfig,
        Error::FileNotExist,
        Error::ShouldRedirect("/elsewhere".to_string()),
        Error::Prompt("p".to_string()),
        Error::Warning("w".to_string()),
        Error::Custom("c".to_string()),
    ] {
        let mut h = RequestHandler::new(true);
        h.set_response(Err(e));
        let head = head_of(h.on_response());
        assert_eq!(head.status, None);
        assert!(head.headers.is_empty());
        assert_eq!(head.content_length, None);
        assert_eq!(head.next, Next::Write);
        assert!(matches!(h.write_plan(), WritePlan::Finish));
    }
}

#[test]
fn write_position_bounds() {
    let mut h = answered(Some(b"ab"));
    assert!(h.write_pos_in_bounds());
    h.write_pos = 3;
    assert!(!h.write_pos_in_bounds());
    let mut h = RequestHandler::new(false);
    assert!(h.write_pos_in_bounds());
    h.write_pos = 13;
    assert!(h.write_pos_in_bounds());
    h.write_pos = 14;
    assert!(!h.write_pos_in_bounds());
}

#[test]
fn write_plan_without_stored_bytes_ignores_position() {
    let mut h = RequestHandler::new(false);
    h.set_response(Err(Error::Prompt("p".to_string())));
    h.write_pos = 99;
    assert!(matches!(h.write_plan(), WritePlan::Finish));
    let mut h = RequestHandler::new(false);
    h.write_pos = 99;
    assert!(matches!(h.write_plan(), WritePlan::NotFoundText));
}

#[test]
fn write_run_sends_the_announced_bytes_once_in_order() {
    let payload = b"a static file of some length".to_vec();
    let mut h = RequestHandler::new(true);
    h.set_response(Err(Error::NotFound("/f.txt".to_string())));
    let head = h.on_static_file(Some((payload.clone(), "text/plain".to_string())));
    let announced = head.content_length.unwrap();
    let mut sent: Vec<u8> = Vec::new();
    let mut calls = 0;
    loop {
        calls += 1;
        assert!(calls < 100);
        assert_eq!(h.after_write(WriteOutcome::WouldBlock), Next::Write);
        let took = match h.write_plan() {
            WritePlan::Bytes(b) => {
                let n = if b.len() < 5 { b.len() } else { 5 };
                sent.extend_from_slice(&b[..n]);
                n
            }
            _ => panic!("expected bytes"),
        };
        if h.after_write(WriteOutcome::Wrote(took)) == Next::End {
            break;
        }
    }
    assert_eq!(sent, payload);
    assert_eq!(sent.len() as u64, announced);
    assert_eq!(h.write_pos, payload.len());
}
