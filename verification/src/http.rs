//! Requests and responses as this layer sees them for the length of one
//! call.

use vstd::prelude::*;
use crate::text_map::TextMap;

verus! {

/// The method of a request, as `conduit` names it. This layer hands it
/// on and never looks inside.
#[verifier::external_type_specification]
#[verifier::external_body]
pub struct ExMethod(conduit::Method);

/// Copies a method with the `Clone` impl that `conduit::Method` derives:
/// the copy is the same method.
#[verifier::external_body]
pub(crate) fn same_method(method: &conduit::Method) -> (copy: conduit::Method)
    ensures
        copy == *method,
{
    method.clone()
}

/// Headers: each name maps to the values it was given, in their order.
pub type Headers = TextMap<Vec<String>>;

/// An inbound request.
#[derive(Debug)]
pub struct Request {
    /// The request method.
    pub method: conduit::Method,
    /// The path that a handler sees.
    pub path: String,
    /// What follows the `?` of the URL, if anything does.
    pub query_string: Option<String>,
    /// The request headers.
    pub headers: Headers,
    /// The path parameters that the routing layers have captured so far.
    pub params: TextMap<String>,
    /// The request body.
    pub body: Vec<u8>,
    /// How often the commit hook has been invoked on this request.
    pub commits: u64,
}

/// An outbound response.
#[derive(Debug)]
pub struct Response {
    /// The status code and its reason phrase.
    pub status: (u32, &'static str),
    /// The response headers.
    pub headers: Headers,
    /// The bytes of the body.
    pub body: Vec<u8>,
}

/// The mathematical value of a [`Response`].
pub struct ResponseView {
    pub code: u32,
    pub reason: Seq<char>,
    pub headers: Map<Seq<char>, Seq<Seq<char>>>,
    pub body: Seq<u8>,
}

impl View for Response {
    type V = ResponseView;

    open spec fn view(&self) -> ResponseView {
        ResponseView {
            code: self.status.0,
            reason: self.status.1@,
            headers: self.headers@,
            body: self.body@,
        }
    }
}

impl ResponseView {
    /// Whether every header that is present has at least one value.
    pub open spec fn well_formed(self) -> bool {
        forall|name: Seq<char>| #[trigger]
            self.headers.dom().contains(name) ==> self.headers[name].len() > 0
    }
}

impl Request {
    /// The request after one more invocation of the commit hook. The
    /// count stops at the largest number it can hold.
    pub open spec fn committed(self) -> Request {
        Request {
            commits: if self.commits < u64::MAX {
                (self.commits + 1) as u64
            } else {
                self.commits
            },
            ..self
        }
    }

    /// The request with another path and everything else unchanged.
    pub open spec fn with_path(self, path: String) -> Request {
        Request { path, ..self }
    }

    /// The request with another method and everything else unchanged.
    pub open spec fn with_method(self, method: conduit::Method) -> Request {
        Request { method, ..self }
    }

    /// The commit hook: signals that the request completed successfully.
    pub fn commit(&mut self)
        ensures
            *final(self) == old(self).committed(),
    {
        if self.commits < u64::MAX {
            self.commits = self.commits + 1;
        }
    }
}

} // verus!
