use vstd::prelude::*;

verus! {

/// An HTTP request method.
#[derive(Debug, Clone)]
pub enum Method {
    Options,
    Get,
    Post,
    Put,
    Delete,
    Head,
    Trace,
    Connect,
    Patch,
    Extension(String),
}

/// Two methods are the same when they are the same variant and, for an
/// extension method, carry the same name.
pub open spec fn same_method(a: Method, b: Method) -> bool {
    match a {
        Method::Extension(x) => match b {
            Method::Extension(y) => x@ == y@,
            _ => false,
        },
        _ => a == b,
    }
}

/// Methods are told apart by their variant, and extension methods by their
/// name: two methods count as one exactly when they are equal, or are both
/// extensions with the same name.
pub proof fn law_same_method_is_equality(a: Method, b: Method)
    ensures
        !(a is Extension) ==> (same_method(a, b) <==> a == b),
        !(b is Extension) ==> (same_method(a, b) <==> a == b),
        (a is Extension && b is Extension) ==> (same_method(a, b) <==> a->Extension_0@ == b->Extension_0@),
{
}

/// Tells whether two methods are the same method.
pub fn method_eq(a: &Method, b: &Method) -> (r: bool)
    ensures
        r == same_method(*a, *b),
{
    match a {
        Method::Extension(x) => match b {
            Method::Extension(y) => String::eq(x, y),
            _ => false,
        },
        Method::Options => matches!(b, Method::Options),
        Method::Get => matches!(b, Method::Get),
        Method::Post => matches!(b, Method::Post),
        Method::Put => matches!(b, Method::Put),
        Method::Delete => matches!(b, Method::Delete),
        Method::Head => matches!(b, Method::Head),
        Method::Trace => matches!(b, Method::Trace),
        Method::Connect => matches!(b, Method::Connect),
        Method::Patch => matches!(b, Method::Patch),
    }
}

impl Method {
    /// A copy of the method.
    pub fn duplicate(&self) -> (r: Method)
        ensures
            r == *self,
    {
        match self {
            Method::Options => Method::Options,
            Method::Get => Method::Get,
            Method::Post => Method::Post,
            Method::Put => Method::Put,
            Method::Delete => Method::Delete,
            Method::Head => Method::Head,
            Method::Trace => Method::Trace,
            Method::Connect => Method::Connect,
            Method::Patch => Method::Patch,
            Method::Extension(name) => Method::Extension(name.clone()),
        }
    }
}

/// An HTTP protocol version.
#[derive(Debug, Clone, Copy, PartialEq, Eq)]
pub enum HttpVersion {
    Http09,
    Http10,
    Http11,
    Http20,
}

/// One header line: a name and its value as text.
#[derive(Debug, Clone)]
pub struct Header {
    pub name: String,
    pub value: String,
}

impl Header {
    pub fn new(name: String, value: String) -> (r: Header)
        ensures
            r.name == name,
            r.value == value,
    {
        Header { name, value }
    }

    /// A copy of the header.
    pub fn duplicate(&self) -> (r: Header)
        ensures
            r == *self,
    {
        Header { name: self.name.clone(), value: self.value.clone() }
    }
}

/// A copy of a list of headers, in the same order.
pub fn duplicate_headers(headers: &Vec<Header>) -> (r: Vec<Header>)
    ensures
        r@ == headers@,
{
    let mut r: Vec<Header> = Vec::new();
    let mut i: usize = 0;
    while i < headers.len()
        invariant
            i <= headers.len(),
            r@ == headers@.take(i as int),
        decreases headers.len() - i,
    {
        r.push(headers[i].duplicate());
        i = i + 1;
        assert(r@ =~= headers@.take(i as int));
    }
    assert(headers@.take(headers.len() as int) =~= headers@);
    r
}

/// A copy of an optional string.
pub fn duplicate_opt_string(o: &Option<String>) -> (r: Option<String>)
    ensures
        r == *o,
{
    match o {
        Some(a) => Some(a.clone()),
        None => None,
    }
}

/// The view of an optional string as an optional sequence of characters.
pub open spec fn opt_chars(o: Option<String>) -> Option<Seq<char>> {
    match o {
        Some(s) => Some(s@),
        None => None,
    }
}

/// A marker type that names the route parameters of a request.
#[derive(Clone)]
pub struct PathParams;

/// A request as the framework hands it to middleware and handlers: the
/// request line and headers as plain values, the raw body once it has been
/// read, and an extension map `E` in which middleware leaves values for the
/// handlers that come after it.
pub struct SapperRequest<E> {
    pub method: Method,
    pub version: HttpVersion,
    pub headers: Vec<Header>,
    pub path: String,
    pub query: Option<String>,
    pub remote_addr: Option<String>,
    pub body: Option<Vec<u8>>,
    /// The parameters the route's path pattern read from the path, ordered
    /// by name.
    pub params: Vec<(String, String)>,
    pub ext: E,
}

impl<E> SapperRequest<E> {
    /// A request with the given request line, headers and peer address, no
    /// body yet, and the given (fresh) extension map.
    pub fn new(
        method: Method,
        version: HttpVersion,
        headers: Vec<Header>,
        path: String,
        query: Option<String>,
        remote_addr: Option<String>,
        ext: E,
    ) -> (r: SapperRequest<E>)
        ensures
            r.method == method,
            r.version == version,
            r.headers@ == headers@,
            r.path@ == path@,
            opt_chars(r.query) == opt_chars(query),
            r.remote_addr == remote_addr,
            r.body is None,
            r.params@.len() == 0,
            r.ext == ext,
    {
        SapperRequest { method, version, headers, path, query, remote_addr, body: None, params: Vec::new(), ext }
    }

    /// The peer's address, where the server knew it.
    pub fn remote_addr(&self) -> (r: Option<String>)
        ensures
            r == self.remote_addr,
    {
        duplicate_opt_string(&self.remote_addr)
    }

    pub fn method(&self) -> (r: &Method)
        ensures
            *r == self.method,
    {
        &self.method
    }

    pub fn version(&self) -> (r: HttpVersion)
        ensures
            r == self.version,
    {
        self.version
    }

    pub fn headers(&self) -> (r: &Vec<Header>)
        ensures
            r@ == self.headers@,
    {
        &self.headers
    }

    /// The path of the request target, without its query.
    pub fn path(&self) -> (r: &str)
        ensures
            r@ == self.path@,
    {
        self.path.as_str()
    }

    /// The query of the request target, without the leading `?`.
    pub fn query(&self) -> (r: Option<&str>)
        ensures
            match (r, self.query) {
                (Some(q), Some(s)) => q@ == s@,
                (None, None) => true,
                _ => false,
            },
    {
        match &self.query {
            Some(q) => Some(q.as_str()),
            None => None,
        }
    }

    /// The raw body, once it has been read.
    pub fn body_ref(&self) -> (r: Option<&Vec<u8>>)
        ensures
            match (r, self.body) {
                (Some(b), Some(s)) => b@ == s@,
                (None, None) => true,
                _ => false,
            },
    {
        match &self.body {
            Some(b) => Some(b),
            None => None,
        }
    }

    /// Consumes the request and hands back its raw body.
    pub fn body(self) -> (r: Option<Vec<u8>>)
        ensures
            r == self.body,
    {
        self.body
    }

    /// The parameters the route's path pattern read from the path, ordered
    /// by name.
    pub fn path_params(&self) -> (r: &Vec<(String, String)>)
        ensures
            r@ == self.params@,
    {
        &self.params
    }

    /// Stores the route parameters read from the path.
    pub fn set_path_params(&mut self, params: Vec<(String, String)>)
        ensures
            *final(self) == (SapperRequest { params, ..*old(self) }),
    {
        self.params = params;
    }

    /// Stores the raw body that was read for this request.
    pub fn set_raw_body(&mut self, body: Vec<u8>)
        ensures
            final(self).body == Some(body),
            final(self).method == old(self).method,
            final(self).version == old(self).version,
            final(self).headers == old(self).headers,
            final(self).path == old(self).path,
            final(self).query == old(self).query,
            final(self).remote_addr == old(self).remote_addr,
            final(self).params == old(self).params,
            final(self).ext == old(self).ext,
    {
        self.body = Some(body);
    }

    pub fn ext(&self) -> (r: &E)
        ensures
            *r == self.ext,
    {
        &self.ext
    }

    pub fn ext_mut(&mut self) -> (r: &mut E)
        ensures
            *r == old(self).ext,
            *final(self) == (SapperRequest { ext: *final(r), ..*old(self) }),
    {
        &mut self.ext
    }
}

} // verus!
