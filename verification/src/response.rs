use vstd::prelude::*;
use crate::request::Header;

verus! {

/// A response as handlers build it and middleware adjusts it: a status code,
/// header lines in the order they were set, and an optional body.
pub struct SapperResponse {
    pub status: u16,
    pub headers: Vec<Header>,
    pub body: Option<Vec<u8>>,
}

impl SapperResponse {
    /// An empty `200 OK` response.
    pub fn new() -> (r: SapperResponse)
        ensures
            r.status == 200,
            r.headers@ == Seq::<Header>::empty(),
            r.body is None,
    {
        SapperResponse { status: 200, headers: Vec::new(), body: None }
    }

    pub fn status(&self) -> (r: u16)
        ensures
            r == self.status,
    {
        self.status
    }

    pub fn set_status(&mut self, status: u16)
        ensures
            final(self).status == status,
            final(self).headers == old(self).headers,
            final(self).body == old(self).body,
    {
        self.status = status;
    }

    pub fn headers(&self) -> (r: &Vec<Header>)
        ensures
            r@ == self.headers@,
    {
        &self.headers
    }

    /// Adds a header line after the ones already set.
    pub fn add_header(&mut self, name: String, value: String)
        ensures
            final(self).headers@ == old(self).headers@.push(Header { name, value }),
            final(self).status == old(self).status,
            final(self).body == old(self).body,
    {
        self.headers.push(Header { name, value });
    }

    pub fn body(&self) -> (r: &Option<Vec<u8>>)
        ensures
            *r == self.body,
    {
        &self.body
    }

    /// Sets the body, replacing any body set before.
    pub fn write_body(&mut self, body: Vec<u8>)
        ensures
            final(self).body == Some(body),
            final(self).status == old(self).status,
            final(self).headers == old(self).headers,
    {
        self.body = Some(body);
    }
}

} // verus!
