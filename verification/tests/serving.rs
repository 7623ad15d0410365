use tickhttp::assets::{AssetStore, SiteMapAsset, WebFileAsset};
use tickhttp::error_replies::{response_400, response_503};
use tickhttp::http_model::{HttpRequest, Method};
use tickhttp::registry::HttpRequestReceivedEvent;
use tickhttp::router::{dispatch_request, http_request_sorter_system};
use tickhttp::serve::{
    content_type_for_path, http_string_serve_system, serve_decision, HttpAssetServeBundle,
    HttpAssetServeComponent,
};
use tickhttp::sitemap::{setup_sitemap, site_map_reloader, SiteMapEvent};

#[test]
fn content_type_comes_from_the_extension() {
    assert_eq!(content_type_for_path("index.html"), "text/html");
    assert_eq!(content_type_for_path("/site/main.css"), "text/css");
    assert_eq!(content_type_for_path("logo.png"), "image/png");
}

#[test]
fn unknown_or_missing_extension_falls_back_to_octet_stream() {
    assert_eq!(content_type_for_path("data.zzznope"), "application/octet-stream");
    assert_eq!(content_type_for_path("no_extension"), "application/octet-stream");
    assert_eq!(content_type_for_path("trailing_dot."), "application/octet-stream");
}

#[test]
fn non_get_is_bad_request_without_consulting_the_resource() {
    // No asset is loaded at all; the method is checked first, so the
    // answer is 400, not 503.
    let expected = response_400();
    let resp = serve_decision(Method::Post, None, &"text/html".to_string());
    assert_eq!(resp.status, 400);
    assert_eq!(resp.status, expected.status);
    assert_eq!(resp.body, b"400 Bad Request.".to_vec());
    assert!(resp.content_type.is_none());
}

#[test]
fn get_before_load_is_service_unavailable() {
    let expected = response_503();
    let resp = serve_decision(Method::Get, None, &"text/html".to_string());
    assert_eq!(resp.status, 503);
    assert_eq!(resp.status, expected.status);
    assert_eq!(resp.body, b"503 Service Unavailable.".to_vec());
}

#[test]
fn get_after_load_serves_bytes_with_content_type() {
    let asset = WebFileAsset { data: b"<html></html>".to_vec() };
    let resp = serve_decision(Method::Get, Some(&asset), &"text/html".to_string());
    assert_eq!(resp.status, 200);
    assert_eq!(resp.content_type, Some("text/html".to_string()));
    assert_eq!(resp.body, b"<html></html>".to_vec());
}

#[test]
fn asset_store_insert_and_hot_reload() {
    let mut store = AssetStore::new();
    assert!(store.get(5).is_none());
    store.insert(5, WebFileAsset { data: b"old".to_vec() });
    assert_eq!(store.get(5).unwrap().data, b"old".to_vec());
    store.insert(5, WebFileAsset { data: b"new".to_vec() });
    assert_eq!(store.get(5).unwrap().data, b"new".to_vec());
    store.insert(6, WebFileAsset { data: b"other".to_vec() });
    assert_eq!(store.get(5).unwrap().data, b"new".to_vec());
    assert_eq!(store.get(6).unwrap().data, b"other".to_vec());
}

#[test]
fn serve_system_drains_mailbox_and_answers_every_message() {
    let mut bundle = HttpAssetServeBundle::new("index.html", "/index.html".to_string(), 1);
    let mut assets = AssetStore::new();
    assets.insert(1, WebFileAsset { data: b"body!".to_vec() });
    bundle.handler.mailbox.push_message(10, HttpRequest::new(Method::Get, "/index.html".into()));
    bundle.handler.mailbox.push_message(11, HttpRequest::new(Method::Post, "/index.html".into()));
    let mut replies = http_string_serve_system(&bundle.server, &mut bundle.handler.mailbox, &assets);
    assert!(bundle.handler.mailbox.read_message().is_none());
    assert_eq!(replies.len(), 2);
    // Newest message first: the POST gets 400, then the GET gets 200.
    assert_eq!(replies[0].ent(), 11);
    let resp = replies[0].take().unwrap().unwrap();
    assert_eq!(resp.status, 400);
    assert_eq!(replies[1].ent(), 10);
    let resp = replies[1].take().unwrap().unwrap();
    assert_eq!(resp.status, 200);
    assert_eq!(resp.content_type, Some("text/html".to_string()));
    assert_eq!(resp.body, b"body!".to_vec());
}

#[test]
fn same_path_recovers_once_resource_becomes_available() {
    let mut bundle = HttpAssetServeBundle::new("index.html", "/index.html".to_string(), 1);
    let mut assets = AssetStore::new();
    bundle.handler.mailbox.push_message(1, HttpRequest::new(Method::Get, "/index.html".into()));
    let mut replies = http_string_serve_system(&bundle.server, &mut bundle.handler.mailbox, &assets);
    assert_eq!(replies[0].take().unwrap().unwrap().status, 503);
    assets.insert(1, WebFileAsset { data: b"ready now".to_vec() });
    bundle.handler.mailbox.push_message(2, HttpRequest::new(Method::Get, "/index.html".into()));
    let mut replies = http_string_serve_system(&bundle.server, &mut bundle.handler.mailbox, &assets);
    let resp = replies[0].take().unwrap().unwrap();
    assert_eq!(resp.status, 200);
    assert_eq!(resp.body, b"ready now".to_vec());
}

#[test]
fn end_to_end_served_page() {
    // GET /index.html with the pattern /index.html registered and the
    // resource loaded: 200, the resource bytes, text/html.
    let mut bundle = HttpAssetServeBundle::new("index.html", "/index.html".to_string(), 1);
    let mut assets = AssetStore::new();
    assets.insert(1, WebFileAsset { data: b"<h1>hi</h1>".to_vec() });
    let ev = HttpRequestReceivedEvent {
        body: HttpRequest::new(Method::Get, "/index.html".into()),
        ent: 1,
    };
    let mut handlers = vec![bundle.handler];
    let reply = dispatch_request(&mut handlers, ev);
    assert!(reply.is_none());
    bundle.handler = handlers.remove(0);
    let mut replies = http_string_serve_system(&bundle.server, &mut bundle.handler.mailbox, &assets);
    assert_eq!(replies.len(), 1);
    assert_eq!(replies[0].ent(), 1);
    let resp = replies[0].take().unwrap().unwrap();
    assert_eq!(resp.status, 200);
    assert_eq!(resp.body, b"<h1>hi</h1>".to_vec());
    assert_eq!(resp.content_type, Some("text/html".to_string()));
}

#[test]
fn end_to_end_missing_page() {
    // GET /missing with no matching pattern: 404 with the plain body.
    let mut handlers = vec![HttpAssetServeBundle::new(
        "index.html",
        "/index.html".to_string(),
        1,
    )
    .handler];
    let events = vec![HttpRequestReceivedEvent {
        body: HttpRequest::new(Method::Get, "/missing".into()),
        ent: 2,
    }];
    let mut replies = http_request_sorter_system(&mut handlers, events);
    assert_eq!(replies.len(), 1);
    let resp = replies[0].take().unwrap().unwrap();
    assert_eq!(resp.status, 404);
    assert_eq!(resp.body, b"404 Not Found.".to_vec());
}

#[test]
fn end_to_end_wrong_method() {
    // POST /index.html: the pattern matches, but the method is wrong;
    // 400 before the handler's resource is even asked for.
    let mut bundle = HttpAssetServeBundle::new("index.html", "/index.html".to_string(), 1);
    let assets = AssetStore::new();
    let ev = HttpRequestReceivedEvent {
        body: HttpRequest::new(Method::Post, "/index.html".into()),
        ent: 3,
    };
    let mut handlers = vec![bundle.handler];
    assert!(dispatch_request(&mut handlers, ev).is_none());
    bundle.handler = handlers.remove(0);
    let mut replies = http_string_serve_system(&bundle.server, &mut bundle.handler.mailbox, &assets);
    let resp = replies[0].take().unwrap().unwrap();
    assert_eq!(resp.status, 400);
    assert_eq!(resp.body, b"400 Bad Request.".to_vec());
}

#[test]
fn reloader_asks_for_created_and_modified_maps_only() {
    let events = vec![
        SiteMapEvent::Created(1),
        SiteMapEvent::Removed(2),
        SiteMapEvent::Modified(3),
    ];
    assert_eq!(site_map_reloader(&events), vec![1, 3]);
}

#[test]
fn setup_sitemap_builds_one_registration_per_entry() {
    let mut controllers = Vec::new();
    let map = SiteMapAsset {
        mapping: vec![
            ("/".to_string(), "index.html".to_string()),
            ("/main.css".to_string(), "main.css".to_string()),
        ],
    };
    let file_handles = vec![10, 11];
    let bundles = setup_sitemap(&mut controllers, 1, Some(&map), &file_handles);
    assert_eq!(controllers.len(), 1);
    assert_eq!(controllers[0].map_handle(), 1);
    assert_eq!(bundles.len(), 2);
    assert_eq!(bundles[0].handler.path_spec.path(), "/");
    assert_eq!(bundles[1].handler.path_spec.path(), "/main.css");
    // A second setup for the same handle does not duplicate the controller.
    let bundles = setup_sitemap(&mut controllers, 1, None, &Vec::new());
    assert_eq!(controllers.len(), 1);
    assert!(bundles.is_empty());
}

#[test]
fn setup_sitemap_without_content_only_creates_the_controller() {
    let mut controllers = Vec::new();
    let bundles = setup_sitemap(&mut controllers, 7, None, &Vec::new());
    assert_eq!(controllers.len(), 1);
    assert_eq!(controllers[0].map_handle(), 7);
    assert!(bundles.is_empty());
}

#[test]
fn serve_component_keeps_its_configuration() {
    let comp = HttpAssetServeComponent::new(9, "text/plain".to_string());
    let asset = WebFileAsset { data: b"t".to_vec() };
    let mut assets = AssetStore::new();
    assets.insert(9, asset);
    let resp = serve_decision(Method::Get, assets.get(9), &"text/plain".to_string());
    assert_eq!(resp.content_type, Some("text/plain".to_string()));
    let _ = comp;
}
