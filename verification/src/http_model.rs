//! Plain-value models of the HTTP data that the core's logic reads.
//!
//! The protocol engine owns the wire representation; the core only ever
//! looks at a request's method and path, and builds replies from a status
//! code, an optional content type and a body.  Those are held here as
//! plain values so that every rule about them can be stated exactly.

use vstd::prelude::*;

verus! {

/// The request methods the core distinguishes.  Routing only ever asks
/// whether a method is `Get`; the others are kept apart so that a reply
/// to them can be tested.
#[derive(Clone, Copy, Debug, PartialEq, Eq, Structural)]
pub enum Method {
    Get,
    Head,
    Post,
    Put,
    Delete,
    Options,
    Other,
}

/// One decoded request: the method and the URI path, already parsed by
/// the protocol engine.  Immutable once created.
pub struct HttpRequest {
    pub method: Method,
    pub path: String,
}

impl HttpRequest {
    /// Builds a request value; used by the process edge and by tests.
    pub fn new(method: Method, path: String) -> (r: HttpRequest)
        ensures
            r.method == method,
            r.path == path,
    {
        HttpRequest { method, path }
    }

    /// A copy of this request, field for field.
    pub fn duplicate(&self) -> (r: HttpRequest)
        ensures
            r.method == self.method,
            r.path@ == self.path@,
    {
        HttpRequest { method: self.method, path: self.path.clone() }
    }
}

/// One reply on its way back to the transport: a status code, an
/// optional `Content-Type` header value, and the body bytes.
#[derive(Debug)]
pub struct HttpResponse {
    pub status: u16,
    pub content_type: Option<String>,
    pub body: Vec<u8>,
}

/// The faults a reply slot can carry in place of a response.
#[derive(Clone, Copy, Debug, PartialEq, Eq, Structural)]
pub enum ReplyFault {
    /// The reply envelope had already been emptied when it was read.
    Taken,
    /// The connection's task was torn down before any reply arrived.
    EarlyTermination,
}

/// What travels through a session's outbound slot: a response, or a
/// fault that stands in for one.
pub type ReplyResult = Result<HttpResponse, ReplyFault>;

/// The service's static configuration: which site maps to serve and
/// which addresses to bind, in order of preference.  Loading it from
/// disk is the process edge's business.
pub struct ServiceConfig {
    /// The site map assets to load for this site.
    pub sitemaps: Vec<String>,
    /// The bind addresses to utilize, in order of preference.
    pub bind_addresses: Vec<String>,
}

} // verus!
