//! The static-asset responder.
//!
//! A handler that answers GET requests with a pre-loaded resource.
//! A request with any other method gets "bad request" without the
//! resource ever being consulted; a GET whose resource has not finished
//! loading gets "service unavailable"; a GET with the resource loaded
//! gets the resource's bytes with status 200 and a `Content-Type`
//! derived from the backing file's extension.

use vstd::prelude::*;
use vstd::string::StringExecFns;

use crate::assets::{AssetStore, WebFileAsset};
use crate::error_replies::{
    is_response_400, is_response_503, response_400, response_503,
};
use crate::http_model::{HttpRequest, HttpResponse, Method};
use crate::registry::HttpRequestReplyEvent;
use crate::router::{extension_of, extension_of_path, HttpHandlerBundle, HttpHandlerRequestMailbox};

verus! {

/// The first MIME type registered for a file extension, as the MIME
/// lookup table has it; nothing for an unknown or empty extension.
pub uninterp spec fn mime_for_extension(ext: Seq<char>) -> Option<Seq<char>>;

/// Relies on `mime_guess::from_ext` followed by `MimeGuess::first_raw`:
/// the first known MIME type for the extension.  The result is a pure
/// (case-insensitive) lookup in a static table, so it depends on the
/// extension alone; an empty extension yields an empty guess.
#[verifier::external_body]
fn guess_mime_for_ext(ext: &str) -> (r: Option<String>)
    ensures
        r is Some <==> mime_for_extension(ext@) is Some,
        r matches Some(m) ==> mime_for_extension(ext@) == Some(m@),
        ext@.len() == 0 ==> r is None,
{
    mime_guess::from_ext(ext).first_raw().map(|m| m.to_string())
}

/// The fallback content type for resources without a known MIME type.
pub open spec fn octet_stream() -> Seq<char> {
    "application/octet-stream"@
}

/// The content type served for a resource at the given file path: the
/// MIME type of its extension, or the octet-stream fallback when the
/// path has no extension or the extension is unknown.
pub open spec fn content_type_spec(path: Seq<char>) -> Seq<char> {
    match extension_of(path) {
        Some(e) => match mime_for_extension(e) {
            Some(m) => m,
            None => octet_stream(),
        },
        None => octet_stream(),
    }
}

/// Computes the content type served for a resource at the given path.
pub fn content_type_for_path(file_path: &str) -> (r: String)
    ensures
        r@ == content_type_spec(file_path@),
{
    match extension_of_path(file_path) {
        Some(e) => match guess_mime_for_ext(e.as_str()) {
            Some(m) => m,
            None => String::from_str("application/octet-stream"),
        },
        None => String::from_str("application/octet-stream"),
    }
}

/// A very simple server that replies to GET requests with pre-loaded
/// data.
pub struct HttpAssetServeComponent {
    data: u64,
    mimetype: String,
}

impl HttpAssetServeComponent {
    /// The handle of the resource this responder serves.
    pub closed spec fn view_data(&self) -> u64 {
        self.data
    }

    /// The content type it serves the resource under.
    pub closed spec fn view_mimetype(&self) -> Seq<char> {
        self.mimetype@
    }

    /// A responder for the resource under the given handle, serving it
    /// under the given content type.
    pub fn new(data: u64, mimetype: String) -> (r: HttpAssetServeComponent)
        ensures
            r.view_data() == data,
            r.view_mimetype() == mimetype@,
    {
        HttpAssetServeComponent { data, mimetype }
    }
}

/// A full static-asset registration: the routing entry (pattern and
/// mailbox) together with the responder.
pub struct HttpAssetServeBundle {
    /// The routing entry for the serve path.
    pub handler: HttpHandlerBundle,
    /// The responder for the backing resource.
    pub server: HttpAssetServeComponent,
}

impl HttpAssetServeBundle {
    /// Builds the registration mapping the resource at `file_path`
    /// (already being loaded under `asset_handle`) to the URI
    /// `serve_path`, with the content type derived from the file
    /// path's extension.
    pub fn new(file_path: &str, serve_path: String, asset_handle: u64) -> (r: HttpAssetServeBundle)
        ensures
            r.handler.path_spec.path_view() == serve_path@,
            r.handler.mailbox.view_msgs() == Seq::<(u64, HttpRequest)>::empty(),
            r.server.view_data() == asset_handle,
            r.server.view_mimetype() == content_type_spec(file_path@),
    {
        let mimetype = content_type_for_path(file_path);
        HttpAssetServeBundle {
            handler: HttpHandlerBundle::new(serve_path),
            server: HttpAssetServeComponent::new(asset_handle, mimetype),
        }
    }
}

/// Holds of the reply this responder owes for one request: "bad
/// request" for a non-GET method, decided before the resource is
/// consulted; "service unavailable" for a GET whose resource is not
/// loaded; the resource's bytes with status 200 and the configured
/// content type otherwise.
pub open spec fn serve_response_ok(
    resp: HttpResponse,
    method: Method,
    loaded: Option<WebFileAsset>,
    mimetype: Seq<char>,
) -> bool {
    &&& !(method is Get) ==> is_response_400(resp)
    &&& method is Get && loaded is None ==> is_response_503(resp)
    &&& (method is Get ==> (loaded matches Some(a) ==> resp.status == 200 && (resp.content_type
        matches Some(c) && c@ == mimetype) && resp.body@ == a.data@))
}

/// Decides the reply for one request against this responder's state.
pub fn serve_decision(method: Method, loaded: Option<&WebFileAsset>, mimetype: &String) -> (resp:
    HttpResponse)
    ensures
        serve_response_ok(
            resp,
            method,
            match loaded {
                Some(a) => Some(*a),
                None => None,
            },
            mimetype@,
        ),
{
    if method != Method::Get {
        return response_400();
    }
    match loaded {
        None => response_503(),
        Some(a) => HttpResponse {
            status: 200,
            content_type: Some(mimetype.clone()),
            body: clone_bytes(&a.data),
        },
    }
}

/// A copy of the given bytes.
fn clone_bytes(v: &Vec<u8>) -> (r: Vec<u8>)
    ensures
        r@ == v@,
{
    let r = v.clone();
    proof {
        assert(r@ =~= v@);
    }
    r
}

/// Holds of a reply event this responder produced for the message
/// `(sid, req)`: it addresses the right session and carries an
/// untouched envelope whose response is the one the responder owes.
pub open spec fn serve_reply_ok(
    ev: HttpRequestReplyEvent,
    sid: u64,
    req: HttpRequest,
    loaded: Option<WebFileAsset>,
    mimetype: Seq<char>,
) -> bool {
    &&& ev.ent_view() == sid
    &&& ev.body_view() matches Some(rp) && rp matches Ok(resp) && serve_response_ok(
        resp,
        req.method,
        loaded,
        mimetype,
    )
}

/// One serving pass for one registered responder: drains its mailbox,
/// newest message first, and produces exactly one reply event per
/// message, each as `serve_reply_ok` demands.
pub fn http_string_serve_system(
    server: &HttpAssetServeComponent,
    mailbox: &mut HttpHandlerRequestMailbox,
    assets: &AssetStore,
) -> (replies: Vec<HttpRequestReplyEvent>)
    ensures
        final(mailbox).view_msgs() == Seq::<(u64, HttpRequest)>::empty(),
        replies@.len() == old(mailbox).view_msgs().len(),
        forall|i: int|
            0 <= i < replies@.len() ==> serve_reply_ok(
                replies@[i],
                old(mailbox).view_msgs()[old(mailbox).view_msgs().len() - 1 - i].0,
                old(mailbox).view_msgs()[old(mailbox).view_msgs().len() - 1 - i].1,
                assets.lookup(server.view_data()),
                server.view_mimetype(),
            ),
{
    let ghost orig = mailbox.view_msgs();
    let mut replies: Vec<HttpRequestReplyEvent> = Vec::new();
    proof {
        assert(orig.take(orig.len() as int) =~= orig);
    }
    loop
        invariant_except_break
            replies@.len() + mailbox.view_msgs().len() == orig.len(),
            mailbox.view_msgs() == orig.take(mailbox.view_msgs().len() as int),
            forall|i: int|
                0 <= i < replies@.len() ==> serve_reply_ok(
                    replies@[i],
                    orig[orig.len() - 1 - i].0,
                    orig[orig.len() - 1 - i].1,
                    assets.lookup(server.view_data()),
                    server.view_mimetype(),
                ),
        ensures
            mailbox.view_msgs() == Seq::<(u64, HttpRequest)>::empty(),
            replies@.len() == orig.len(),
            forall|i: int|
                0 <= i < replies@.len() ==> serve_reply_ok(
                    replies@[i],
                    orig[orig.len() - 1 - i].0,
                    orig[orig.len() - 1 - i].1,
                    assets.lookup(server.view_data()),
                    server.view_mimetype(),
                ),
        decreases mailbox.view_msgs().len(),
    {
        let msg = match mailbox.read_message() {
            Some(m) => m,
            None => {
                proof {
                    assert(mailbox.view_msgs() =~= Seq::<(u64, HttpRequest)>::empty());
                }
                break ;
            },
        };
        let (request, body) = msg;
        let loaded = assets.get(server.data);
        let resp = serve_decision(body.method, loaded, &server.mimetype);
        replies.push(HttpRequestReplyEvent::new(Ok(resp), request));
        proof {
            assert(mailbox.view_msgs() =~= orig.take(mailbox.view_msgs().len() as int));
        }
    }
    replies
}

} // verus!
