//! Canonical fallback replies.
//!
//! Every reply the core synthesizes itself (rather than a handler) comes
//! from here: "bad request" for a wrong method, "not found" for an
//! unrouted path, "service unavailable" for a resource that is not
//! ready, and "internal error" for a failure while building a response.
//! Each body is the plain-text status description.

use vstd::prelude::*;
use vstd::string::StrSliceExecFns;
use vstd::utf8::encode_utf8;

use crate::http_model::HttpResponse;
use crate::registry::HttpRequestReplyEvent;

verus! {

/// Holds of the canonical "not found" reply and of nothing else.
pub open spec fn is_response_404(r: HttpResponse) -> bool {
    &&& r.status == 404
    &&& r.content_type is None
    &&& r.body@ == encode_utf8("404 Not Found."@)
}

/// Holds of the canonical "bad request" reply and of nothing else.
pub open spec fn is_response_400(r: HttpResponse) -> bool {
    &&& r.status == 400
    &&& r.content_type is None
    &&& r.body@ == encode_utf8("400 Bad Request."@)
}

/// Holds of the canonical "service unavailable" reply and of nothing else.
pub open spec fn is_response_503(r: HttpResponse) -> bool {
    &&& r.status == 503
    &&& r.content_type is None
    &&& r.body@ == encode_utf8("503 Service Unavailable."@)
}

/// Holds of the canonical "internal error" reply and of nothing else.
pub open spec fn is_response_500(r: HttpResponse) -> bool {
    &&& r.status == 500
    &&& r.content_type is None
    &&& r.body@ == encode_utf8("500 Internal Server Error."@)
}

/// The "not found" reply for requests that no registered pattern matches.
pub fn response_404() -> (r: HttpResponse)
    ensures
        is_response_404(r),
{
    HttpResponse { status: 404, content_type: None, body: "404 Not Found.".as_bytes_vec() }
}

/// The "bad request" reply for malformed or unsupported methods.
pub fn response_400() -> (r: HttpResponse)
    ensures
        is_response_400(r),
{
    HttpResponse { status: 400, content_type: None, body: "400 Bad Request.".as_bytes_vec() }
}

/// The "service unavailable" reply for a handler whose backing resource
/// is not ready yet.
pub fn response_503() -> (r: HttpResponse)
    ensures
        is_response_503(r),
{
    HttpResponse {
        status: 503,
        content_type: None,
        body: "503 Service Unavailable.".as_bytes_vec(),
    }
}

/// The "internal error" reply for a failure while building a response.
pub fn response_500() -> (r: HttpResponse)
    ensures
        is_response_500(r),
{
    HttpResponse {
        status: 500,
        content_type: None,
        body: "500 Internal Server Error.".as_bytes_vec(),
    }
}

/// Holds of a reply event that carries an untouched envelope with a
/// successful response satisfying the given description.
pub open spec fn carries_response(
    ev: HttpRequestReplyEvent,
    session: u64,
    good: spec_fn(HttpResponse) -> bool,
) -> bool {
    &&& ev.ent_view() == session
    &&& ev.body_view() matches Some(rp) && rp matches Ok(resp) && good(resp)
}

/// Builds the reply event answering the given request with the 404
/// (Not Found) page.
pub fn reply_request_404(request: u64) -> (ev: HttpRequestReplyEvent)
    ensures
        carries_response(ev, request, |resp: HttpResponse| is_response_404(resp)),
{
    HttpRequestReplyEvent::new(Ok(response_404()), request)
}

/// Builds the reply event answering the given request with the 400
/// (Bad Request) page.
pub fn reply_request_400(request: u64) -> (ev: HttpRequestReplyEvent)
    ensures
        carries_response(ev, request, |resp: HttpResponse| is_response_400(resp)),
{
    HttpRequestReplyEvent::new(Ok(response_400()), request)
}

/// Builds the reply event answering the given request with the 503
/// (Service Unavailable) page.
pub fn reply_request_503(request: u64) -> (ev: HttpRequestReplyEvent)
    ensures
        carries_response(ev, request, |resp: HttpResponse| is_response_503(resp)),
{
    HttpRequestReplyEvent::new(Ok(response_503()), request)
}

/// Builds the reply event answering the given request with the 500
/// (Internal Server Error) page.
pub fn reply_request_500(request: u64) -> (ev: HttpRequestReplyEvent)
    ensures
        carries_response(ev, request, |resp: HttpResponse| is_response_500(resp)),
{
    HttpRequestReplyEvent::new(Ok(response_500()), request)
}

} // verus!
