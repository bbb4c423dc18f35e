use vstd::prelude::*;
use crate::error::Error;
use crate::request::{Header, HttpVersion, Method, SapperRequest, duplicate_headers, duplicate_opt_string, opt_chars};
use crate::response::SapperResponse;
use crate::target::{split_target, target_path, target_query};

verus! {

/// What a connection waits for next.
#[derive(Debug, Clone, Copy, PartialEq, Eq)]
pub enum Next {
    Write,
    ReadAndWrite,
    End,
}

/// The target of a request line, in its four forms.
pub enum RequestUri {
    /// An absolute path with an optional query, such as `/where?q=now`.
    AbsolutePath(String),
    /// An absolute URI, as sent to proxies.
    AbsoluteUri(String),
    /// An authority, as in `CONNECT` requests.
    Authority(String),
    /// `*`, as in server-wide `OPTIONS` requests.
    Star,
}

/// How one read of the request body ended.
pub enum ReadOutcome {
    /// The read placed this many bytes at the start of the read buffer;
    /// zero means the body has ended.
    Read(usize),
    /// Nothing can be read now.
    WouldBlock,
    /// The read failed.
    Failed,
}

/// How one write of the response body ended.
pub enum WriteOutcome {
    /// This many bytes of the offered ones were written.
    Wrote(usize),
    /// Nothing can be written now.
    WouldBlock,
    /// The write failed.
    Failed,
}

/// What to set on the outgoing response before its body: the status where
/// it changes, header lines to set in order (each replacing any earlier line
/// of the same name), and the announced body length.
pub struct ResponseHead {
    pub status: Option<u16>,
    pub headers: Vec<Header>,
    pub content_length: Option<u64>,
    pub next: Next,
}

/// What to do once the request has been answered (or not).
pub enum ResponsePlan {
    /// Set this head and go on.
    Head(ResponseHead),
    /// No route answered this path and static files are served: look the
    /// file up, then report it with `on_static_file`.
    LookupStatic(String),
}

/// What to write next.
pub enum WritePlan<'a> {
    /// Write (a prefix of) these bytes, then report with `after_write`.
    Bytes(&'a [u8]),
    /// Write the `404 Not Found` text once, then end.
    NotFoundText,
    /// Nothing more to write: end.
    Finish,
}

/// The text sent for a path that nothing answers.
pub open spec fn not_found_text() -> Seq<u8> {
    seq![52u8, 48u8, 52u8, 32u8, 78u8, 111u8, 116u8, 32u8, 70u8, 111u8, 117u8, 110u8, 100u8]
}

/// The bytes of `404 Not Found`.
pub fn not_found_body() -> (r: Vec<u8>)
    ensures
        r@ == not_found_text(),
{
    let r: Vec<u8> = vec![52u8, 48u8, 52u8, 32u8, 78u8, 111u8, 116u8, 32u8, 70u8, 111u8, 117u8, 110u8, 100u8];
    assert(r@ =~= not_found_text());
    r
}

/// The state of one connection: the request line and headers kept while a
/// body is read, the body read so far and the buffer reads go into, the
/// answer, the static file found for it, and how much of the response body
/// has been written.
pub struct RequestHandler {
    pub static_service: bool,
    pub path: String,
    pub method: Method,
    pub version: HttpVersion,
    pub headers: Vec<Header>,
    pub remote_addr: Option<String>,
    pub buf: Vec<u8>,
    pub body: Vec<u8>,
    pub has_body: bool,
    pub write_pos: usize,
    pub response: Result<SapperResponse, Error>,
    pub static_file: Option<Vec<u8>>,
}

/// The response body this connection sends, from its first byte: the
/// handler's body, the static file, or the `404 Not Found` text; nothing for
/// other errors.
pub open spec fn output_bytes(h: RequestHandler) -> Seq<u8> {
    match h.response {
        Ok(r) => match r.body {
            Some(b) => b@,
            None => Seq::<u8>::empty(),
        },
        Err(Error::NotFound(_)) => if h.static_service {
            match h.static_file {
                Some(f) => f@,
                None => not_found_text(),
            }
        } else {
            not_found_text()
        },
        Err(_) => Seq::<u8>::empty(),
    }
}

/// The body being sent is bytes the connection holds: the handler's body
/// or a static file (rather than the `404 Not Found` text or nothing).
pub open spec fn sends_stored_bytes(h: RequestHandler) -> bool {
    match h.response {
        Ok(r) => r.body is Some,
        Err(Error::NotFound(_)) => h.static_service && h.static_file is Some,
        Err(_) => false,
    }
}

/// The bytes one read adds to the body: the bytes it placed in the read
/// buffer, when the connection expects a body and the read was not its end.
pub open spec fn chunk_read(h: RequestHandler, o: ReadOutcome) -> Seq<u8> {
    match o {
        ReadOutcome::Read(n) => if h.has_body && n > 0 {
            h.buf@.take(n as int)
        } else {
            Seq::<u8>::empty()
        },
        _ => Seq::<u8>::empty(),
    }
}

/// What one read does to the body and what it hands on: the body gains
/// the bytes read; a request is handed on to be answered exactly when the
/// connection expects a body and the read found its end, and it carries the
/// body read so far.
pub open spec fn read_step<E>(old: RequestHandler, new: RequestHandler, o: ReadOutcome, handed: Option<SapperRequest<E>>) -> bool {
    &&& new.has_body == old.has_body
    &&& new.body@ == old.body@ + chunk_read(old, o)
    &&& handed is Some <==> old.has_body && o == ReadOutcome::Read(0)
    &&& handed matches Some(req) ==> req.body matches Some(b) && b@ == old.body@
}

/// What is left to send of the response body.
pub open spec fn remaining_output(h: RequestHandler) -> Seq<u8> {
    output_bytes(h).skip(h.write_pos as int)
}

/// A header line with this name and value.
pub open spec fn header_is(h: Header, name: Seq<char>, value: Seq<char>) -> bool {
    h.name@ == name && h.value@ == value
}

/// The length of a body as it is announced.
pub open spec fn announced(b: Seq<u8>) -> Option<u64> {
    Some(b.len() as u64)
}

/// The plan `on_response` makes for a connection in state `h`.
pub open spec fn response_plan_for(h: RequestHandler, plan: ResponsePlan) -> bool {
    match h.response {
        Ok(resp) => plan matches ResponsePlan::Head(hd) && {
            &&& hd.status == Some(resp.status)
            &&& hd.headers@.len() == resp.headers@.len() + 1
            &&& header_is(hd.headers@[0], "Content-Type"@, "text/plain; charset=utf-8"@)
            &&& hd.headers@.skip(1) == resp.headers@
            &&& hd.content_length == match resp.body {
                Some(b) => announced(b@),
                None => None,
            }
            &&& hd.next == Next::Write
        },
        Err(Error::NotFound(p)) => if h.static_service {
            plan matches ResponsePlan::LookupStatic(q) && q@ == p@
        } else {
            plan matches ResponsePlan::Head(hd) && {
                &&& hd.status == Some(404u16)
                &&& hd.headers@.len() == 0
                &&& hd.content_length == announced(not_found_text())
                &&& hd.next == Next::Write
            }
        },
        Err(Error::Fatal(_)) => plan matches ResponsePlan::Head(hd) && {
            &&& hd.status == Some(500u16)
            &&& hd.headers@.len() == 0
            &&& hd.content_length is None
            &&& hd.next == Next::End
        },
        Err(_) => plan matches ResponsePlan::Head(hd) && {
            &&& hd.status is None
            &&& hd.headers@.len() == 0
            &&& hd.content_length is None
            &&& hd.next == Next::Write
        },
    }
}

/// The step `on_static_file` takes from state `old` to state `new`, given the
/// file that was looked up, with the head it decides.
pub open spec fn static_file_step(
    old: RequestHandler,
    new: RequestHandler,
    file: Option<(Vec<u8>, String)>,
    head: ResponseHead,
) -> bool {
    match file {
        Some((bytes, mime)) => {
            &&& new == (RequestHandler { static_file: Some(bytes), ..old })
            &&& head.status is None
            &&& head.headers@.len() == 1
            &&& header_is(head.headers@[0], "Content-Type"@, mime@)
            &&& head.content_length == announced(bytes@)
            &&& head.next == Next::Write
        },
        None => {
            &&& new == old
            &&& head.status == Some(404u16)
            &&& head.headers@.len() == 0
            &&& head.content_length == announced(not_found_text())
            &&& head.next == Next::Write
        },
    }
}

/// The step `after_write` takes from state `old` to state `new` on a write
/// that ended as `outcome`, with what it waits for next.
pub open spec fn write_step(old: RequestHandler, new: RequestHandler, outcome: WriteOutcome, next: Next) -> bool {
    match outcome {
        WriteOutcome::Wrote(n) => if n == 0 {
            next == Next::End && new == old
        } else {
            &&& next == Next::Write
            &&& new == (RequestHandler { write_pos: new.write_pos, ..old })
            &&& new.write_pos == old.write_pos + n
        },
        WriteOutcome::WouldBlock => next == Next::Write && new == old,
        WriteOutcome::Failed => next == Next::End && new == old,
    }
}

impl RequestHandler {
    /// The position of the next byte to write lies within the body being
    /// sent.
    pub open spec fn write_in_bounds(&self) -> bool {
        self.write_pos <= output_bytes(*self).len()
    }

    /// A connection that has seen nothing yet: no path, `GET`, HTTP/1.1, no
    /// headers, no peer address, an empty body, a read buffer of 2048 zero
    /// bytes, nothing written,
    /// and, until an answer is set, the answer `NotFound("/")`.
    pub fn new(static_service: bool) -> (r: RequestHandler)
        ensures
            r.static_service == static_service,
            r.path@ == Seq::<char>::empty(),
            r.method == Method::Get,
            r.version == HttpVersion::Http11,
            r.headers@.len() == 0,
            r.remote_addr is None,
            r.buf@ == Seq::new(2048, |_i: int| 0u8),
            r.body@.len() == 0,
            !r.has_body,
            r.write_pos == 0,
            r.response matches Err(Error::NotFound(p)) && p@ == "/"@,
            r.static_file is None,
    {
        RequestHandler {
            static_service,
            path: String::new(),
            method: Method::Get,
            version: HttpVersion::Http11,
            headers: Vec::new(),
            remote_addr: None,
            buf: vec![0u8; 2048],
            body: Vec::new(),
            has_body: false,
            write_pos: 0,
            response: Err(Error::NotFound(String::from_str("/"))),
            static_file: None,
        }
    }

    /// A request line and its headers have arrived. A request that announces
    /// a body (by a `Content-Length` or a `Content-Type` header) is kept until
    /// its body has been read; any other request with an absolute path is
    /// handed back at once, split into path and query, to be answered.
    pub fn on_request<E>(
        &mut self,
        uri: RequestUri,
        method: Method,
        version: HttpVersion,
        headers: Vec<Header>,
        has_content_length: bool,
        has_content_type: bool,
        remote_addr: Option<String>,
        ext: E,
    ) -> (res: (Next, Option<SapperRequest<E>>))
        ensures
            match uri {
                RequestUri::AbsolutePath(target) => if has_content_length || has_content_type {
                    &&& res.0 == Next::ReadAndWrite
                    &&& res.1 is None
                    &&& final(self).path == target
                    &&& final(self).method == method
                    &&& final(self).version == version
                    &&& final(self).headers == headers
                    &&& final(self).remote_addr == remote_addr
                    &&& final(self).has_body
                    &&& final(self).static_service == old(self).static_service
                    &&& final(self).buf == old(self).buf
                    &&& final(self).body == old(self).body
                    &&& final(self).write_pos == old(self).write_pos
                    &&& final(self).response == old(self).response
                    &&& final(self).static_file == old(self).static_file
                } else {
                    &&& res.0 == Next::Write
                    &&& *final(self) == *old(self)
                    &&& res.1 matches Some(req) && {
                        &&& req.method == method
                        &&& req.version == version
                        &&& req.headers@ == headers@
                        &&& req.path@ == target_path(target@)
                        &&& opt_chars(req.query) == target_query(target@)
                        &&& req.body is None
                        &&& req.remote_addr == remote_addr
                        &&& req.ext == ext
                    }
                },
                _ => res.0 == Next::Write && res.1 is None && *final(self) == *old(self),
            },
    {
        match uri {
            RequestUri::AbsolutePath(target) => {
                if has_content_length || has_content_type {
                    self.path = target;
                    self.method = method;
                    self.version = version;
                    self.headers = headers;
                    self.remote_addr = remote_addr;
                    self.has_body = true;
                    (Next::ReadAndWrite, None)
                } else {
                    let (path, query) = split_target(target.as_str());
                    let req = SapperRequest::new(method, version, headers, path, query, remote_addr, ext);
                    (Next::Write, Some(req))
                }
            },
            _ => (Next::Write, None),
        }
    }

    /// A read of the request body has ended as `outcome`. Bytes read are
    /// added to the body; at the end of the body the kept request is handed
    /// back, with the whole body, to be answered. A connection that expects
    /// no body only goes on to write.
    pub fn on_request_readable<E>(&mut self, outcome: ReadOutcome, ext: E) -> (res: (Next, Option<SapperRequest<E>>))
        requires
            outcome matches ReadOutcome::Read(n) ==> n <= old(self).buf@.len(),
        ensures
            final(self).static_service == old(self).static_service,
            final(self).path == old(self).path,
            final(self).method == old(self).method,
            final(self).version == old(self).version,
            final(self).headers == old(self).headers,
            final(self).remote_addr == old(self).remote_addr,
            final(self).buf == old(self).buf,
            final(self).has_body == old(self).has_body,
            final(self).write_pos == old(self).write_pos,
            final(self).response == old(self).response,
            final(self).static_file == old(self).static_file,
            final(self).body@ == old(self).body@ + chunk_read(*old(self), outcome),
            read_step(*old(self), *final(self), outcome, res.1),
            !old(self).has_body ==> res.0 == Next::Write && res.1 is None && final(self).body == old(self).body,
            old(self).has_body ==> match outcome {
                ReadOutcome::Read(n) => if n == 0 {
                    &&& res.0 == Next::Write
                    &&& final(self).body == old(self).body
                    &&& res.1 matches Some(req) && {
                        &&& req.method == old(self).method
                        &&& req.version == old(self).version
                        &&& req.headers@ == old(self).headers@
                        &&& req.path@ == target_path(old(self).path@)
                        &&& opt_chars(req.query) == target_query(old(self).path@)
                        &&& req.body matches Some(b) && b@ == old(self).body@
                        &&& req.remote_addr == old(self).remote_addr
                        &&& req.ext == ext
                    }
                } else {
                    &&& res.0 == Next::ReadAndWrite
                    &&& res.1 is None
                    &&& final(self).body@ == old(self).body@ + old(self).buf@.take(n as int)
                },
                ReadOutcome::WouldBlock => res.0 == Next::ReadAndWrite && res.1 is None
                    && final(self).body == old(self).body,
                ReadOutcome::Failed => res.0 == Next::End && res.1 is None && final(self).body
                    == old(self).body,
            },
    {
        if !self.has_body {
            return (Next::Write, None);
        }
        match outcome {
            ReadOutcome::Read(n) => {
                if n == 0 {
                    let (path, query) = split_target(self.path.as_str());
                    let mut req = SapperRequest::new(
                        self.method.duplicate(),
                        self.version,
                        duplicate_headers(&self.headers),
                        path,
                        query,
                        duplicate_opt_string(&self.remote_addr),
                        ext,
                    );
                    req.set_raw_body(self.body.clone());
                    (Next::Write, Some(req))
                } else {
                    let chunk = vstd::slice::slice_subrange(self.buf.as_slice(), 0, n);
                    let ghost body0 = self.body@;
                    self.body.extend_from_slice(chunk);
                    assert(self.body@ =~= body0 + self.buf@.take(n as int));
                    (Next::ReadAndWrite, None)
                }
            },
            ReadOutcome::WouldBlock => (Next::ReadAndWrite, None),
            ReadOutcome::Failed => (Next::End, None),
        }
    }

    /// Stores the answer to the request.
    pub fn set_response(&mut self, response: Result<SapperResponse, Error>)
        ensures
            *final(self) == (RequestHandler { response, ..*old(self) }),
    {
        self.response = response;
    }

    /// Decides the head of the outgoing response from the answer: an answer
    /// keeps its status, gets a plain-text content type that its own headers
    /// may override, and announces the length of its body; a path that
    /// nothing answers is looked up among the static files when they are
    /// served and otherwise answered `404` with the `404 Not Found` text; a
    /// fatal error is answered `500` and ends the connection; other errors
    /// leave the head as it is.
    pub fn on_response(&self) -> (plan: ResponsePlan)
        ensures
            response_plan_for(*self, plan),
    {
        match &self.response {
            Ok(resp) => {
                let mut headers: Vec<Header> = Vec::new();
                headers.push(
                    Header {
                        name: String::from_str("Content-Type"),
                        value: String::from_str("text/plain; charset=utf-8"),
                    },
                );
                let rest = duplicate_headers(&resp.headers);
                let ghost first = headers@;
                let mut i: usize = 0;
                while i < rest.len()
                    invariant
                        i <= rest@.len(),
                        headers@ == first + rest@.take(i as int),
                    decreases rest@.len() - i,
                {
                    headers.push(rest[i].duplicate());
                    i = i + 1;
                    assert(headers@ =~= first + rest@.take(i as int));
                }
                assert(rest@.take(rest@.len() as int) =~= rest@);
                assert(headers@.skip(1) =~= resp.headers@);
                let content_length = match &resp.body {
                    Some(b) => Some(b.len() as u64),
                    None => None,
                };
                ResponsePlan::Head(
                    ResponseHead { status: Some(resp.status), headers, content_length, next: Next::Write },
                )
            },
            Err(Error::NotFound(path)) => {
                if self.static_service {
                    ResponsePlan::LookupStatic(path.clone())
                } else {
                    ResponsePlan::Head(
                        ResponseHead {
                            status: Some(404),
                            headers: Vec::new(),
                            content_length: Some(13),
                            next: Next::Write,
                        },
                    )
                }
            },
            Err(Error::Fatal(_)) => ResponsePlan::Head(
                ResponseHead { status: Some(500), headers: Vec::new(), content_length: None, next: Next::End },
            ),
            Err(_) => ResponsePlan::Head(
                ResponseHead { status: None, headers: Vec::new(), content_length: None, next: Next::Write },
            ),
        }
    }

    /// The static file looked up for an unanswered path: when it was found,
    /// its bytes are kept to be sent, with its media type and length in the
    /// head; when it was not, the answer is `404` with the `404 Not Found`
    /// text.
    pub fn on_static_file(&mut self, file: Option<(Vec<u8>, String)>) -> (h: ResponseHead)
        ensures
            static_file_step(*old(self), *final(self), file, h),
    {
        match file {
            Some((bytes, mime)) => {
                let len = bytes.len() as u64;
                self.static_file = Some(bytes);
                let mut headers: Vec<Header> = Vec::new();
                headers.push(Header { name: String::from_str("Content-Type"), value: mime });
                ResponseHead { status: None, headers, content_length: Some(len), next: Next::Write }
            },
            None => ResponseHead {
                status: Some(404),
                headers: Vec::new(),
                content_length: Some(13),
                next: Next::Write,
            },
        }
    }

    /// Tells whether the position of the next byte to write lies within the
    /// body being sent.
    pub fn write_pos_in_bounds(&self) -> (r: bool)
        ensures
            r == self.write_in_bounds(),
    {
        match &self.response {
            Ok(resp) => match &resp.body {
                Some(b) => self.write_pos <= b.len(),
                None => self.write_pos == 0,
            },
            Err(Error::NotFound(_)) => {
                if self.static_service {
                    match &self.static_file {
                        Some(f) => self.write_pos <= f.len(),
                        None => self.write_pos <= 13,
                    }
                } else {
                    self.write_pos <= 13
                }
            },
            Err(_) => self.write_pos == 0,
        }
    }

    /// What to write next: the rest of the handler's body or of the static
    /// file, the `404 Not Found` text, or nothing.
    pub fn write_plan(&self) -> (plan: WritePlan<'_>)
        requires
            sends_stored_bytes(*self) ==> self.write_in_bounds(),
        ensures
            match self.response {
                Ok(resp) => match resp.body {
                    Some(_) => plan matches WritePlan::Bytes(b) && b@ == remaining_output(*self),
                    None => plan is Finish,
                },
                Err(Error::NotFound(_)) => if self.static_service && self.static_file is Some {
                    plan matches WritePlan::Bytes(b) && b@ == remaining_output(*self)
                } else {
                    plan is NotFoundText && output_bytes(*self) == not_found_text()
                },
                Err(_) => plan is Finish,
            },
    {
        match &self.response {
            Ok(resp) => match &resp.body {
                Some(b) => WritePlan::Bytes(
                    vstd::slice::slice_subrange(b.as_slice(), self.write_pos, b.len()),
                ),
                None => WritePlan::Finish,
            },
            Err(Error::NotFound(_)) => {
                if self.static_service {
                    match &self.static_file {
                        Some(f) => WritePlan::Bytes(
                            vstd::slice::slice_subrange(f.as_slice(), self.write_pos, f.len()),
                        ),
                        None => WritePlan::NotFoundText,
                    }
                } else {
                    WritePlan::NotFoundText
                }
            },
            Err(_) => WritePlan::Finish,
        }
    }

    /// A write of offered bytes has ended as `outcome`: the written bytes are
    /// passed over and writing goes on; a write of nothing, or a failed
    /// write, ends the connection.
    pub fn after_write(&mut self, outcome: WriteOutcome) -> (next: Next)
        requires
            old(self).write_in_bounds(),
            outcome matches WriteOutcome::Wrote(n) ==> n <= remaining_output(*old(self)).len(),
        ensures
            final(self).write_in_bounds(),
            write_step(*old(self), *final(self), outcome, next),
    {
        match outcome {
            WriteOutcome::Wrote(n) => {
                if n == 0 {
                    Next::End
                } else {
                    proof {
                        lemma_output_fits(*self);
                    }
                    self.write_pos = self.write_pos + n;
                    Next::Write
                }
            },
            WriteOutcome::WouldBlock => Next::Write,
            WriteOutcome::Failed => Next::End,
        }
    }
}

/// The body being sent is never longer than a machine word can count.
pub proof fn lemma_output_fits(h: RequestHandler)
    ensures
        output_bytes(h).len() <= usize::MAX,
{
    match h.response {
        Ok(r) => match r.body {
            Some(b) => {
                assert(b@.len() == b.len());
            },
            None => {},
        },
        Err(Error::NotFound(_)) => {
            match h.static_file {
                Some(f) => {
                    assert(f@.len() == f.len());
                },
                None => {},
            }
        },
        Err(_) => {},
    }
}

/// The length a response head announces is the length of the body that the
/// connection then sends: a head that announces no length is followed by no
/// body.
pub proof fn law_announced_length(h: RequestHandler, plan: ResponsePlan)
    requires
        response_plan_for(h, plan),
    ensures
        plan matches ResponsePlan::Head(hd) ==> {
            &&& hd.content_length matches Some(n) ==> n == output_bytes(h).len()
            &&& hd.content_length is None ==> output_bytes(h).len() == 0
        },
{
    lemma_output_fits(h);
}

/// The same holds of the head decided for a static file: what it announces
/// is what is then sent, the file or the `404 Not Found` text.
pub proof fn law_static_announced_length(
    old: RequestHandler,
    new: RequestHandler,
    file: Option<(Vec<u8>, String)>,
    head: ResponseHead,
)
    requires
        static_file_step(old, new, file, head),
        old.response is Err && old.response->Err_0 is NotFound,
        old.static_service,
        old.static_file is None,
    ensures
        head.content_length matches Some(n) && n == output_bytes(new).len(),
{
    lemma_output_fits(new);
}

/// Writing passes over exactly the bytes written: after a write of `n` bytes
/// what is left to send is what was left, less its first `n` bytes. Over a run
/// of writes the connection thus sends its body once, in order.
pub proof fn law_write_progress(old: RequestHandler, new: RequestHandler, outcome: WriteOutcome, next: Next)
    requires
        old.write_in_bounds(),
        write_step(old, new, outcome, next),
        outcome matches WriteOutcome::Wrote(n) ==> n <= remaining_output(old).len(),
    ensures
        new.write_in_bounds(),
        outcome matches WriteOutcome::Wrote(n) ==> remaining_output(new) == remaining_output(old).skip(
            n as int,
        ),
        !(outcome is Wrote) ==> remaining_output(new) == remaining_output(old),
{
    lemma_output_fits(old);
    if let WriteOutcome::Wrote(n) = outcome {
        if n > 0 {
            assert(output_bytes(new) == output_bytes(old));
            assert(remaining_output(new) =~= remaining_output(old).skip(n as int));
        } else {
            assert(remaining_output(old).skip(0) =~= remaining_output(old));
        }
    }
}

/// The number of bytes a write that ended as `o` took.
pub open spec fn written(o: WriteOutcome) -> int {
    match o {
        WriteOutcome::Wrote(n) => n as int,
        _ => 0,
    }
}

/// The `i`-th call of a run of writes went from state `hs[i]` to
/// `hs[i + 1]` on a write that ended as `os[i]` and took no more than was
/// offered, and then waited for `nexts[i]`; the run may end in a write of
/// nothing or a failed write.
pub open spec fn write_run(hs: Seq<RequestHandler>, os: Seq<WriteOutcome>, nexts: Seq<Next>) -> bool {
    &&& hs.len() == os.len() + 1
    &&& nexts.len() == os.len()
    &&& forall|i: int|
        #![trigger os[i]]
        0 <= i < os.len() ==> write_step(hs[i], hs[i + 1], os[i], nexts[i]) && written(os[i])
            <= remaining_output(hs[i]).len()
}

/// The bytes a run of writes took: the `i`-th write, from state `hs[i]`,
/// took the first `written(os[i])` bytes of what was left to send.
pub open spec fn bytes_taken(hs: Seq<RequestHandler>, os: Seq<WriteOutcome>, k: int) -> Seq<u8>
    decreases k,
{
    if k <= 0 {
        Seq::<u8>::empty()
    } else {
        bytes_taken(hs, os, k - 1) + remaining_output(hs[k - 1]).take(written(os[k - 1]))
    }
}

/// The number of bytes a run of writes took.
pub open spec fn count_taken(os: Seq<WriteOutcome>, k: int) -> int
    decreases k,
{
    if k <= 0 {
        0
    } else {
        count_taken(os, k - 1) + written(os[k - 1])
    }
}

/// A run of writes, from the first byte of the body, sends the body once
/// and in order, whatever writes that found no room come in between and
/// whether it ends in a write of nothing or a failed write: every
/// state of the run meets what `after_write` asks, the bytes taken, one
/// write after the other, are the body's first `write_pos` bytes, and
/// `write_pos` is the number taken. When the last state has nothing left
/// to send, the whole body was sent.
pub proof fn law_write_run(hs: Seq<RequestHandler>, os: Seq<WriteOutcome>, nexts: Seq<Next>)
    requires
        write_run(hs, os, nexts),
        hs[0].write_pos == 0,
    ensures
        forall|i: int| 0 <= i < hs.len() ==> (#[trigger] hs[i]).write_in_bounds(),
        bytes_taken(hs, os, os.len() as int) == output_bytes(hs[0]).take(hs.last().write_pos as int),
        hs.last().write_pos == count_taken(os, os.len() as int),
        output_bytes(hs.last()) == output_bytes(hs[0]),
        remaining_output(hs.last()).len() == 0 ==> bytes_taken(hs, os, os.len() as int) == output_bytes(hs[0]),
{
    lemma_write_run(hs, os, nexts, os.len() as int);
    assert forall|i: int| 0 <= i < hs.len() implies (#[trigger] hs[i]).write_in_bounds() by {
        lemma_write_run(hs, os, nexts, i);
    }
    let last = hs.last();
    if remaining_output(last).len() == 0 {
        assert(output_bytes(hs[0]).take(last.write_pos as int) =~= output_bytes(hs[0]));
    }
}

proof fn lemma_write_run(hs: Seq<RequestHandler>, os: Seq<WriteOutcome>, nexts: Seq<Next>, k: int)
    requires
        write_run(hs, os, nexts),
        0 <= k <= os.len(),
        hs[0].write_pos == 0,
    ensures
        bytes_taken(hs, os, k) == output_bytes(hs[0]).take(hs[k].write_pos as int),
        hs[k].write_pos == count_taken(os, k),
        output_bytes(hs[k]) == output_bytes(hs[0]),
        hs[k].write_pos <= output_bytes(hs[0]).len(),
    decreases k,
{
    if k > 0 {
        lemma_write_run(hs, os, nexts, k - 1);
        let h = hs[k - 1];
        let o = os[k - 1];
        let n = written(o);
        assert(write_step(h, hs[k - 1 + 1], o, nexts[k - 1]));
        assert(hs[k - 1 + 1] == hs[k]);
        let out = output_bytes(hs[0]);
        assert(output_bytes(hs[k]) == output_bytes(h));
        assert(hs[k].write_pos == h.write_pos + n);
        assert(remaining_output(h).take(n) =~= out.subrange(h.write_pos as int, h.write_pos + n));
        assert(out.take(h.write_pos as int) + out.subrange(h.write_pos as int, h.write_pos + n) =~= out.take(
            hs[k].write_pos as int,
        ));
    } else {
        assert(output_bytes(hs[0]).take(0) =~= Seq::<u8>::empty());
    }
}

/// The bytes a run of reads added to the body, one read after the other.
pub open spec fn chunks_read(hs: Seq<RequestHandler>, outs: Seq<ReadOutcome>, k: int) -> Seq<u8>
    decreases k,
{
    if k <= 0 {
        Seq::<u8>::empty()
    } else {
        chunks_read(hs, outs, k - 1) + chunk_read(hs[k - 1], outs[k - 1])
    }
}

/// Over a run of reads the body is what it was, followed by the bytes of
/// each read in the order they came, however the body was cut into reads
/// and whatever reads found nothing to read in between; none is lost,
/// doubled or moved. The read that ends the body hands over this body
/// whole (see `on_request_readable`).
pub proof fn law_body_is_the_chunks_in_order(hs: Seq<RequestHandler>, outs: Seq<ReadOutcome>)
    requires
        hs.len() == outs.len() + 1,
        forall|i: int|
            #![trigger outs[i]]
            0 <= i < outs.len() ==> hs[i + 1].body@ == hs[i].body@ + chunk_read(hs[i], outs[i]),
    ensures
        hs.last().body@ == hs[0].body@ + chunks_read(hs, outs, outs.len() as int),
{
    lemma_body_run(hs, outs, outs.len() as int);
}

/// A connection that expects a body hands its request on once: over a run
/// of reads that starts with an empty body and ends at the first read that
/// finds the end of the body, no read but the last hands a request on, and
/// the last hands on a request whose body is the bytes of all the reads, in
/// the order they came.
pub proof fn law_whole_body_handed_on_once<E>(
    hs: Seq<RequestHandler>,
    outs: Seq<ReadOutcome>,
    handed: Seq<Option<SapperRequest<E>>>,
)
    requires
        hs.len() == outs.len() + 1,
        handed.len() == outs.len(),
        outs.len() > 0,
        hs[0].has_body,
        hs[0].body@.len() == 0,
        forall|i: int|
            #![trigger outs[i]]
            0 <= i < outs.len() ==> read_step(hs[i], hs[i + 1], outs[i], handed[i]),
        outs.last() == ReadOutcome::Read(0),
        forall|i: int| 0 <= i < outs.len() - 1 ==> #[trigger] outs[i] != ReadOutcome::Read(0),
    ensures
        forall|i: int| 0 <= i < outs.len() - 1 ==> (#[trigger] handed[i]) is None,
        handed.last() matches Some(req) && req.body matches Some(b) && b@ == chunks_read(
            hs,
            outs,
            outs.len() as int,
        ),
{
    let k = outs.len() - 1;
    assert forall|i: int| 0 <= i < outs.len() implies (#[trigger] hs[i]).has_body by {
        lemma_has_body_kept(hs, outs, handed, i);
    }
    assert forall|i: int| 0 <= i < outs.len() - 1 implies (#[trigger] handed[i]) is None by {
        assert(read_step(hs[i], hs[i + 1], outs[i], handed[i]));
        assert(outs[i] != ReadOutcome::Read(0));
    }
    assert forall|i: int|
        #![trigger outs[i]]
        0 <= i < outs.len() implies hs[i + 1].body@ == hs[i].body@ + chunk_read(hs[i], outs[i]) by {
        assert(read_step(hs[i], hs[i + 1], outs[i], handed[i]));
    }
    lemma_body_run(hs, outs, k);
    assert(read_step(hs[k], hs[k + 1], outs[k], handed[k]));
    assert(chunk_read(hs[k], outs[k]) =~= Seq::<u8>::empty());
    assert(chunks_read(hs, outs, outs.len() as int) =~= chunks_read(hs, outs, k));
    assert(hs[0].body@ + chunks_read(hs, outs, k) =~= chunks_read(hs, outs, k));
}

proof fn lemma_has_body_kept<E>(
    hs: Seq<RequestHandler>,
    outs: Seq<ReadOutcome>,
    handed: Seq<Option<SapperRequest<E>>>,
    k: int,
)
    requires
        hs.len() == outs.len() + 1,
        handed.len() == outs.len(),
        0 <= k <= outs.len(),
        hs[0].has_body,
        forall|i: int|
            #![trigger outs[i]]
            0 <= i < outs.len() ==> read_step(hs[i], hs[i + 1], outs[i], handed[i]),
    ensures
        hs[k].has_body,
    decreases k,
{
    if k > 0 {
        lemma_has_body_kept(hs, outs, handed, k - 1);
        assert(read_step(hs[k - 1], hs[k - 1 + 1], outs[k - 1], handed[k - 1]));
    }
}

proof fn lemma_body_run(hs: Seq<RequestHandler>, outs: Seq<ReadOutcome>, k: int)
    requires
        hs.len() == outs.len() + 1,
        0 <= k <= outs.len(),
        forall|i: int|
            #![trigger outs[i]]
            0 <= i < outs.len() ==> hs[i + 1].body@ == hs[i].body@ + chunk_read(hs[i], outs[i]),
    ensures
        hs[k].body@ == hs[0].body@ + chunks_read(hs, outs, k),
    decreases k,
{
    if k == 0 {
        assert(hs[0].body@ + Seq::<u8>::empty() =~= hs[0].body@);
    } else {
        lemma_body_run(hs, outs, k - 1);
        let o = outs[k - 1];
        assert(hs[k - 1 + 1] == hs[k]);
        assert(hs[0].body@ + chunks_read(hs, outs, k) =~= hs[0].body@ + chunks_read(hs, outs, k - 1) + chunk_read(
            hs[k - 1],
            o,
        ));
    }
}

/// Every write of the run took all it was offered, and the last took
/// nothing, which ended the run.
pub open spec fn sent_to_end(hs: Seq<RequestHandler>, os: Seq<WriteOutcome>) -> bool {
    &&& os.len() > 0
    &&& os.last() == WriteOutcome::Wrote(0)
    &&& forall|i: int|
        0 <= i < os.len() ==> ((#[trigger] os[i]) matches WriteOutcome::Wrote(n) ==> n == remaining_output(hs[i]).len())
}

/// A run whose writes took all they were offered, up to the write of
/// nothing that ended it, leaves nothing to send.
pub proof fn law_sent_to_end_leaves_nothing(hs: Seq<RequestHandler>, os: Seq<WriteOutcome>, nexts: Seq<Next>)
    requires
        write_run(hs, os, nexts),
        sent_to_end(hs, os),
    ensures
        remaining_output(hs.last()).len() == 0,
{
    let k = os.len() - 1;
    assert(write_step(hs[k], hs[k + 1], os[k], nexts[k]));
    assert(hs[k + 1] == hs.last());
}

/// A run of writes that leaves nothing to send (as one does whose writes
/// took all they were offered, up to the write of nothing that ends it) has
/// sent, in all, exactly the length that the response head announced.
pub proof fn law_run_sends_announced_length(
    plan: ResponsePlan,
    hs: Seq<RequestHandler>,
    os: Seq<WriteOutcome>,
    nexts: Seq<Next>,
)
    requires
        response_plan_for(hs[0], plan),
        plan matches ResponsePlan::Head(hd) && hd.content_length is Some,
        write_run(hs, os, nexts),
        hs[0].write_pos == 0,
        remaining_output(hs.last()).len() == 0 || sent_to_end(hs, os),
    ensures
        plan matches ResponsePlan::Head(hd) && hd.content_length == Some(count_taken(os, os.len() as int) as u64),
        bytes_taken(hs, os, os.len() as int) == output_bytes(hs[0]),
{
    law_announced_length(hs[0], plan);
    if sent_to_end(hs, os) {
        law_sent_to_end_leaves_nothing(hs, os, nexts);
    }
    law_write_run(hs, os, nexts);
    lemma_output_fits(hs[0]);
}

/// The same holds of a static file: a run of writes that leaves nothing to
/// send has sent, in all, exactly the length that the head decided for the
/// file announced.
pub proof fn law_static_run_sends_announced_length(
    before: RequestHandler,
    file: Option<(Vec<u8>, String)>,
    head: ResponseHead,
    hs: Seq<RequestHandler>,
    os: Seq<WriteOutcome>,
    nexts: Seq<Next>,
)
    requires
        static_file_step(before, hs[0], file, head),
        before.response is Err && before.response->Err_0 is NotFound,
        before.static_service,
        before.static_file is None,
        write_run(hs, os, nexts),
        hs[0].write_pos == 0,
        remaining_output(hs.last()).len() == 0 || sent_to_end(hs, os),
    ensures
        head.content_length == Some(count_taken(os, os.len() as int) as u64),
        bytes_taken(hs, os, os.len() as int) == output_bytes(hs[0]),
{
    law_static_announced_length(before, hs[0], file, head);
    if sent_to_end(hs, os) {
        law_sent_to_end_leaves_nothing(hs, os, nexts);
    }
    law_write_run(hs, os, nexts);
    lemma_output_fits(hs[0]);
}


/// An answered request's head carries what the handler's response says:
/// its status, the `Content-Type` line and then the response's own headers,
/// and the length of its body; and writing follows.
pub proof fn law_answer_head_carries_the_response(h: RequestHandler, plan: ResponsePlan)
    requires
        response_plan_for(h, plan),
        h.response is Ok,
    ensures
        ({
            let resp = h.response->Ok_0;
            plan matches ResponsePlan::Head(hd) && {
                &&& hd.status == Some(resp.status)
                &&& hd.headers@.len() == resp.headers@.len() + 1
                &&& hd.headers@[0].name@ == "Content-Type"@
                &&& forall|i: int| 0 <= i < resp.headers@.len() ==> hd.headers@[i + 1] == #[trigger] resp.headers@[i]
                &&& hd.content_length == match resp.body {
                    Some(b) => Some(b@.len() as u64),
                    None => None,
                }
                &&& hd.next == Next::Write
            }
        }),
{
    let resp = h.response->Ok_0;
    if let ResponsePlan::Head(hd) = plan {
        assert forall|i: int| 0 <= i < resp.headers@.len() implies hd.headers@[i + 1] == #[trigger] resp.headers@[i] by {
            assert(hd.headers@.skip(1)[i] == hd.headers@[i + 1]);
        }
    }
}

/// A head that announces a body is followed by writing it: whenever the
/// head decided for a response announces a length, the connection goes on
/// to write, and what it writes is as long as announced.
pub proof fn law_announced_body_is_written(h: RequestHandler, plan: ResponsePlan)
    requires
        response_plan_for(h, plan),
    ensures
        plan matches ResponsePlan::Head(hd) ==> (hd.content_length matches Some(n) ==> hd.next == Next::Write
            && n == output_bytes(h).len()),
{
    lemma_output_fits(h);
}

/// The head decided for a static lookup always announces a length and is
/// followed by writing that many bytes. A file that was found goes out with
/// no status of its own, its media type, and its whole length, and it is
/// what the connection then writes.
pub proof fn law_static_file_is_announced_and_written(
    old: RequestHandler,
    new: RequestHandler,
    file: Option<(Vec<u8>, String)>,
    head: ResponseHead,
)
    requires
        static_file_step(old, new, file, head),
        old.response is Err && old.response->Err_0 is NotFound,
        old.static_service,
        old.static_file is None,
    ensures
        head.content_length matches Some(n) && head.next == Next::Write && n == output_bytes(new).len(),
        file matches Some((bytes, mime)) ==> {
            &&& head.status is None
            &&& head.headers@.len() == 1
            &&& head.headers@[0].name@ == "Content-Type"@
            &&& head.headers@[0].value@ == mime@
            &&& new.static_file == Some(bytes)
            &&& output_bytes(new) == bytes@
            &&& head.content_length == Some(bytes@.len() as u64)
        },
        file is None ==> head.status == Some(404u16) && output_bytes(new) == not_found_text()
            && head.content_length == Some(13u64),
{
    lemma_output_fits(new);
}

} // verus!
