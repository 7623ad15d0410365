use tickhttp::error_replies::response_404;
use tickhttp::http_model::{HttpRequest, Method};
use tickhttp::registry::HttpRequestReceivedEvent;
use tickhttp::router::{
    check_path_matches, dispatch_request, extension_of_path, http_request_sorter_system,
    HttpHandlerBundle,
};

#[test]
fn wildcard_matches_one_extra_segment() {
    assert!(check_path_matches("/a/b", "/a/*"));
}

#[test]
fn short_path_does_not_match_longer_pattern() {
    assert!(!check_path_matches("/a", "/a/*"));
}

#[test]
fn wildcard_matches_everything_after_it() {
    assert!(check_path_matches("/a/b/c", "/a/*"));
}

#[test]
fn different_literal_does_not_match() {
    assert!(!check_path_matches("/x", "/a"));
}

#[test]
fn equal_literal_matches() {
    assert!(check_path_matches("/a", "/a"));
}

#[test]
fn exact_match_requires_equal_length() {
    assert!(!check_path_matches("/a/b", "/a"));
}

#[test]
fn empty_segments_are_ignored() {
    assert!(check_path_matches("//a///b/", "/a/b"));
    assert!(check_path_matches("/a/b", "a//b"));
}

#[test]
fn root_matches_root() {
    assert!(check_path_matches("/", "/"));
    assert!(!check_path_matches("/", "/a"));
}

#[test]
fn bare_wildcard_matches_any_nonempty_path() {
    assert!(check_path_matches("/anything", "/*"));
    assert!(check_path_matches("/a/b/c", "*"));
    assert!(!check_path_matches("/", "/*"));
}

#[test]
fn extension_of_simple_path() {
    assert_eq!(extension_of_path("/site/index.html"), Some("html".to_string()));
}

#[test]
fn extension_missing_when_no_dot() {
    assert_eq!(extension_of_path("/site/readme"), None);
}

#[test]
fn extension_missing_for_hidden_file() {
    assert_eq!(extension_of_path("/site/.hidden"), None);
}

#[test]
fn extension_takes_last_dot() {
    assert_eq!(extension_of_path("archive.tar.gz"), Some("gz".to_string()));
}

#[test]
fn extension_of_empty_path_is_none() {
    assert_eq!(extension_of_path(""), None);
}

#[test]
fn trailing_dot_gives_an_empty_extension() {
    assert_eq!(extension_of_path("strange."), Some(String::new()));
}

fn get(path: &str) -> HttpRequest {
    HttpRequest::new(Method::Get, path.to_string())
}

#[test]
fn matched_request_lands_in_first_matching_mailbox() {
    let mut handlers = vec![
        HttpHandlerBundle::new("/one".to_string()),
        HttpHandlerBundle::new("/two/*".to_string()),
    ];
    let ev = HttpRequestReceivedEvent { body: get("/two/x"), ent: 7 };
    let reply = dispatch_request(&mut handlers, ev);
    assert!(reply.is_none());
    assert!(handlers[0].mailbox.read_message().is_none());
    let (sid, req) = handlers[1].mailbox.read_message().expect("message expected");
    assert_eq!(sid, 7);
    assert_eq!(req.path, "/two/x");
}

#[test]
fn first_registered_matching_pattern_wins() {
    let mut handlers = vec![
        HttpHandlerBundle::new("/a/*".to_string()),
        HttpHandlerBundle::new("/a/b".to_string()),
    ];
    let ev = HttpRequestReceivedEvent { body: get("/a/b"), ent: 3 };
    let reply = dispatch_request(&mut handlers, ev);
    assert!(reply.is_none());
    assert!(handlers[0].mailbox.read_message().is_some());
    assert!(handlers[1].mailbox.read_message().is_none());
}

#[test]
fn unmatched_request_gets_not_found_and_reaches_no_mailbox() {
    let mut handlers = vec![
        HttpHandlerBundle::new("/a".to_string()),
        HttpHandlerBundle::new("/b/*".to_string()),
    ];
    let ev = HttpRequestReceivedEvent { body: get("/missing"), ent: 9 };
    let mut reply = dispatch_request(&mut handlers, ev).expect("a not-found reply");
    assert!(handlers[0].mailbox.read_message().is_none());
    assert!(handlers[1].mailbox.read_message().is_none());
    assert_eq!(reply.ent(), 9);
    let resp = reply.take().expect("envelope untouched").expect("a response, not a fault");
    let expected = response_404();
    assert_eq!(resp.status, 404);
    assert_eq!(resp.status, expected.status);
    assert_eq!(resp.body, b"404 Not Found.".to_vec());
    assert!(resp.content_type.is_none());
}

#[test]
fn sorter_routes_batch_in_order() {
    let mut handlers = vec![
        HttpHandlerBundle::new("/a/*".to_string()),
        HttpHandlerBundle::new("/b".to_string()),
    ];
    let events = vec![
        HttpRequestReceivedEvent { body: get("/a/1"), ent: 1 },
        HttpRequestReceivedEvent { body: get("/nowhere"), ent: 2 },
        HttpRequestReceivedEvent { body: get("/b"), ent: 3 },
        HttpRequestReceivedEvent { body: get("/a/2"), ent: 4 },
    ];
    let mut replies = http_request_sorter_system(&mut handlers, events);
    // Mailboxes drain newest first.
    let (sid, _) = handlers[0].mailbox.read_message().unwrap();
    assert_eq!(sid, 4);
    let (sid, _) = handlers[0].mailbox.read_message().unwrap();
    assert_eq!(sid, 1);
    assert!(handlers[0].mailbox.read_message().is_none());
    let (sid, _) = handlers[1].mailbox.read_message().unwrap();
    assert_eq!(sid, 3);
    assert!(handlers[1].mailbox.read_message().is_none());
    assert_eq!(replies.len(), 1);
    assert_eq!(replies[0].ent(), 2);
    let resp = replies[0].take().unwrap().unwrap();
    assert_eq!(resp.status, 404);
}
