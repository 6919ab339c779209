//! The plain data carried through the core: methods, responses, and the
//! error taxonomy of registration and of request handling.

use vstd::prelude::*;
use crate::bytes::bytes_eq;
use crate::bytes::find_value;
use crate::bytes::lookup;
use crate::bytes::pair_views;

verus! {

/// An HTTP request method. The core routes on the method as plain data.
#[derive(Clone, Copy, Debug, PartialEq, Eq, Structural)]
pub enum Method {
    Get,
    Post,
    Put,
    Delete,
    Patch,
    Head,
    Options,
}

/// The upper-case wire name of a method, as a byte string.
pub open spec fn method_name(m: Method) -> Seq<u8> {
    match m {
        Method::Get => seq![71u8, 69u8, 84u8],
        Method::Post => seq![80u8, 79u8, 83u8, 84u8],
        Method::Put => seq![80u8, 85u8, 84u8],
        Method::Delete => seq![68u8, 69u8, 76u8, 69u8, 84u8, 69u8],
        Method::Patch => seq![80u8, 65u8, 84u8, 67u8, 72u8],
        Method::Head => seq![72u8, 69u8, 65u8, 68u8],
        Method::Options => seq![79u8, 80u8, 84u8, 73u8, 79u8, 78u8, 83u8],
    }
}

impl Method {
    /// Parse an upper-case wire name into a method; `None` on any byte
    /// string that is not the name of a supported method.
    pub fn from_name(name: &Vec<u8>) -> (r: Option<Method>)
        ensures
            r matches Some(m) ==> method_name(m) == name@,
            r is None ==> forall|m: Method| method_name(m) != name@,
    {
        let candidates: [Method; 7] = [
            Method::Get,
            Method::Post,
            Method::Put,
            Method::Delete,
            Method::Patch,
            Method::Head,
            Method::Options,
        ];
        let mut i: usize = 0;
        while i < 7
            invariant
                0 <= i <= 7,
                candidates@ =~= seq![
                    Method::Get, Method::Post, Method::Put, Method::Delete,
                    Method::Patch, Method::Head, Method::Options,
                ],
                forall|j: int| 0 <= j < i ==> method_name(candidates@[j]) != name@,
            decreases 7 - i,
        {
            let text = Self::name_of(&candidates[i]);
            if bytes_eq(&text, name) {
                return Some(candidates[i]);
            }
            i += 1;
        }
        proof {
            assert forall|m: Method| method_name(m) != name@ by {
                assert(candidates@.contains(m)) by {
                    match m {
                        Method::Get => assert(candidates@[0] == m),
                        Method::Post => assert(candidates@[1] == m),
                        Method::Put => assert(candidates@[2] == m),
                        Method::Delete => assert(candidates@[3] == m),
                        Method::Patch => assert(candidates@[4] == m),
                        Method::Head => assert(candidates@[5] == m),
                        Method::Options => assert(candidates@[6] == m),
                    }
                }
            }
        }
        None
    }

    /// The wire name of this method as a byte string.
    pub fn name_of(&self) -> (r: Vec<u8>)
        ensures
            r@ == method_name(*self),
    {
        let mut r: Vec<u8> = Vec::new();
        match self {
            Method::Get => {
                r.push(71u8);
                r.push(69u8);
                r.push(84u8);
            }
            Method::Post => {
                r.push(80u8);
                r.push(79u8);
                r.push(83u8);
                r.push(84u8);
            }
            Method::Put => {
                r.push(80u8);
                r.push(85u8);
                r.push(84u8);
            }
            Method::Delete => {
                r.push(68u8);
                r.push(69u8);
                r.push(76u8);
                r.push(69u8);
                r.push(84u8);
                r.push(69u8);
            }
            Method::Patch => {
                r.push(80u8);
                r.push(65u8);
                r.push(84u8);
                r.push(67u8);
                r.push(72u8);
            }
            Method::Head => {
                r.push(72u8);
                r.push(69u8);
                r.push(65u8);
                r.push(68u8);
            }
            Method::Options => {
                r.push(79u8);
                r.push(80u8);
                r.push(84u8);
                r.push(73u8);
                r.push(79u8);
                r.push(78u8);
                r.push(83u8);
            }
        }
        proof {
            assert(r@ =~= method_name(*self));
        }
        r
    }
}

/// A response: a status code, headers, and a body.
pub struct Response {
    pub status: u16,
    pub headers: Vec<(Vec<u8>, Vec<u8>)>,
    pub body: Vec<u8>,
}

impl Response {
    /// A response with the given status, no headers, and an empty body.
    pub fn new(status: u16) -> (r: Response)
        ensures
            r.status == status,
            r.headers@.len() == 0,
            r.body@.len() == 0,
    {
        Response { status, headers: Vec::new(), body: Vec::new() }
    }

    /// A response with the given status and body, built only when the status
    /// code lies in the valid range 100..=999; `None` otherwise.
    pub fn checked(status: u16, body: Vec<u8>) -> (r: Option<Response>)
        ensures
            r is Some <==> 100 <= status <= 999,
            r matches Some(resp) ==> resp.status == status
                && resp.body@ == body@
                && resp.headers@.len() == 0,
    {
        if status_in_range(status) {
            Some(Response { status, headers: Vec::new(), body })
        } else {
            None
        }
    }

    /// A response with the given status and body and no headers.
    pub fn simple(status: u16, body: Vec<u8>) -> (r: Response)
        ensures
            r@ == (ResponseModel { status, headers: Seq::empty(), body: body@ }),
    {
        let r = Response { status, headers: Vec::new(), body };
        proof {
            assert(pair_views(r.headers@) =~= Seq::<(Seq<u8>, Seq<u8>)>::empty());
            assert(r@ =~= (ResponseModel { status, headers: Seq::empty(), body: r.body@ }));
        }
        r
    }

    /// Replace the body.
    pub fn set_body(&mut self, body: Vec<u8>)
        ensures
            final(self).status == old(self).status,
            final(self).headers == old(self).headers,
            final(self).body == body,
    {
        self.body = body;
    }

    /// Append one header.
    pub fn append_header(&mut self, name: Vec<u8>, value: Vec<u8>)
        ensures
            final(self).status == old(self).status,
            final(self).body == old(self).body,
            final(self).headers@ == old(self).headers@.push((name, value)),
    {
        self.headers.push((name, value));
    }
}

/// Relies on `http::StatusCode::from_u16`, which accepts exactly the codes
/// from 100 to 999 inclusive and rejects all others.
#[verifier::external_body]
fn status_in_range(code: u16) -> (r: bool)
    ensures
        r == (100 <= code <= 999),
{
    http::StatusCode::from_u16(code).is_ok()
}

/// The mathematical form of a response.
#[verifier::ext_equal]
pub struct ResponseModel {
    pub status: u16,
    pub headers: Seq<(Seq<u8>, Seq<u8>)>,
    pub body: Seq<u8>,
}

impl View for Response {
    type V = ResponseModel;

    open spec fn view(&self) -> ResponseModel {
        ResponseModel {
            status: self.status,
            headers: pair_views(self.headers@),
            body: self.body@,
        }
    }
}

/// A failure raised inside a handler chain.
pub enum HandlerError {
    /// A deliberate failure carrying an HTTP status; it propagates verbatim.
    Status { status: u16, message: Vec<u8> },
    /// An unexpected failure with no deliberate status; the dispatcher turns
    /// it into a 500 response.
    Internal { message: Vec<u8> },
}

/// The mathematical form of a handler failure.
#[verifier::ext_equal]
pub enum ErrorModel {
    Status { status: u16, message: Seq<u8> },
    Internal { message: Seq<u8> },
}

impl View for HandlerError {
    type V = ErrorModel;

    open spec fn view(&self) -> ErrorModel {
        match self {
            HandlerError::Status { status, message } => (ErrorModel::Status {
                status: *status,
                message: message@,
            }),
            HandlerError::Internal { message } => (ErrorModel::Internal { message: message@ }),
        }
    }
}

/// The mathematical form of a handler outcome.
pub open spec fn outcome_view(r: Result<Response, HandlerError>) -> Result<
    ResponseModel,
    ErrorModel,
> {
    match r {
        Ok(resp) => Ok(resp@),
        Err(e) => Err(e@),
    }
}

/// The raw data of one inbound request, as the transport hands it over.
pub struct RawRequest {
    pub method: Method,
    pub path: Vec<u8>,
    pub headers: Vec<(Vec<u8>, Vec<u8>)>,
    pub body: Vec<u8>,
}

/// The mathematical form of a request as a handler sees it: the raw data
/// plus the parameters the matched pattern bound. The shared state is not
/// part of this form; it is threaded separately, by reference.
#[verifier::ext_equal]
pub struct RequestModel {
    pub method: Method,
    pub path: Seq<u8>,
    pub headers: Seq<(Seq<u8>, Seq<u8>)>,
    pub params: Seq<(Seq<u8>, Seq<u8>)>,
    pub body: Seq<u8>,
}

/// The mathematical form of the raw request data.
pub open spec fn raw_view(r: RawRequest) -> RequestModel {
    RequestModel {
        method: r.method,
        path: r.path@,
        headers: pair_views(r.headers@),
        params: Seq::empty(),
        body: r.body@,
    }
}

/// A request as a handler sees it: the inbound data, the parameters bound by
/// the matched pattern, and a reference to the server's shared state. The
/// reference is never owned by the request; it lives as long as the server.
pub struct Request<'a, State> {
    pub method: Method,
    pub path: Vec<u8>,
    pub headers: Vec<(Vec<u8>, Vec<u8>)>,
    pub params: Vec<(Vec<u8>, Vec<u8>)>,
    pub body: Vec<u8>,
    pub state: &'a State,
}

impl<'a, State> View for Request<'a, State> {
    type V = RequestModel;

    open spec fn view(&self) -> RequestModel {
        RequestModel {
            method: self.method,
            path: self.path@,
            headers: pair_views(self.headers@),
            params: pair_views(self.params@),
            body: self.body@,
        }
    }
}

impl<'a, State> Request<'a, State> {
    /// The request method.
    pub fn method(&self) -> (r: Method)
        ensures
            r == self@.method,
    {
        self.method
    }

    /// The request path.
    pub fn path(&self) -> (r: &Vec<u8>)
        ensures
            r@ == self@.path,
    {
        &self.path
    }

    /// The body handle of the request.
    pub fn body(&self) -> (r: &Vec<u8>)
        ensures
            r@ == self@.body,
    {
        &self.body
    }

    /// The shared server state this request observes.
    pub fn state(&self) -> (r: &'a State)
        ensures
            r == self.state,
    {
        self.state
    }

    /// The first header named `name`, if any.
    pub fn header(&self, name: &Vec<u8>) -> (r: Option<&Vec<u8>>)
        ensures
            (match lookup(self@.headers, name@) {
                Some(v) => r matches Some(rv) && rv@ == v,
                None => r is None,
            }),
    {
        find_value(&self.headers, name)
    }

    /// The value the matched pattern bound to the parameter `name`; `None`
    /// when the pattern bound no such parameter.
    pub fn param(&self, name: &Vec<u8>) -> (r: Option<&Vec<u8>>)
        ensures
            (match lookup(self@.params, name@) {
                Some(v) => r matches Some(rv) && rv@ == v,
                None => r is None,
            }),
    {
        find_value(&self.params, name)
    }
}

/// A structural conflict found while registering routes; fatal at startup.
#[derive(Clone, Copy, Debug, PartialEq, Eq, Structural)]
pub enum RegistrationError {
    /// The pattern holds a wildcard segment somewhere other than last.
    MalformedPattern,
    /// Two different named-segment names at the same trie position.
    AmbiguousNamed,
    /// Two different wildcard names at the same trie position.
    AmbiguousWildcard,
    /// The method is already registered on the identical pattern.
    DuplicateMethod,
}

} // verus!
