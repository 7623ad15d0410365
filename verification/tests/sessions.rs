use tickhttp::acceptor::{
    http_request_listener_step, listener_bind_step, AcceptAction, AcceptOutcome, BindAction,
};
use tickhttp::error_replies::{reply_request_404, reply_request_500};
use tickhttp::exchange::{HttpSingleServicer, HttpSingleServicerFuture, ServicePoll};
use tickhttp::http_model::{HttpRequest, HttpResponse, Method, ReplyFault};
use tickhttp::registry::{
    http_finalizer, http_request_events_system, HttpRequestReplyEvent, SessionRegistry,
};

fn get(path: &str) -> HttpRequest {
    HttpRequest::new(Method::Get, path.to_string())
}

fn plain_response(status: u16, body: &[u8]) -> HttpResponse {
    HttpResponse { status, content_type: None, body: body.to_vec() }
}

#[test]
fn request_is_delivered_once_and_surfaced_once() {
    let mut reg = SessionRegistry::new();
    let id = reg.open_session();
    reg.deliver_request(id, get("/x"));
    let received = http_request_events_system(&mut reg, Vec::new());
    assert_eq!(received.len(), 1);
    assert_eq!(received[0].ent, id);
    assert_eq!(received[0].body.path, "/x");
    // The slot was emptied: a second pass surfaces nothing.
    let received = http_request_events_system(&mut reg, Vec::new());
    assert_eq!(received.len(), 0);
}

#[test]
fn second_reply_submission_fails_and_first_is_kept() {
    let mut reg = SessionRegistry::new();
    let id = reg.open_session();
    reg.deliver_request(id, get("/x"));
    let _ = http_request_events_system(&mut reg, Vec::new());
    assert!(reg.submit_reply(id, Ok(plain_response(200, b"first"))));
    assert!(!reg.submit_reply(id, Ok(plain_response(500, b"second"))));
    let kept = reg.take_reply(id).expect("a reply is waiting").expect("a response");
    assert_eq!(kept.status, 200);
    assert_eq!(kept.body, b"first".to_vec());
    // Even after the first reply was consumed, no further one is accepted.
    assert!(!reg.submit_reply(id, Ok(plain_response(500, b"third"))));
}

#[test]
fn reply_to_finished_session_is_rejected() {
    let mut reg = SessionRegistry::new();
    let id = reg.open_session();
    reg.mark_finished(id);
    assert!(!reg.submit_reply(id, Ok(plain_response(200, b"late"))));
    assert!(reg.take_reply(id).is_none());
}

#[test]
fn finalizer_reaps_finished_sessions_and_later_replies_fail() {
    let mut reg = SessionRegistry::new();
    let finished = reg.open_session();
    let alive = reg.open_session();
    reg.mark_finished(finished);
    http_finalizer(&mut reg);
    assert!(!reg.contains_session(finished));
    assert!(reg.contains_session(alive));
    assert!(!reg.submit_reply(finished, Ok(plain_response(200, b"x"))));
    assert!(reg.submit_reply(alive, Ok(plain_response(200, b"x"))));
}

#[test]
fn reply_events_are_delivered_through_the_tick() {
    let mut reg = SessionRegistry::new();
    let id = reg.open_session();
    let ev = HttpRequestReplyEvent::new(Ok(plain_response(200, b"hello")), id);
    let _ = http_request_events_system(&mut reg, vec![ev]);
    let resp = reg.take_reply(id).unwrap().unwrap();
    assert_eq!(resp.status, 200);
    assert_eq!(resp.body, b"hello".to_vec());
}

#[test]
fn duplicate_reply_events_keep_only_the_first() {
    let mut reg = SessionRegistry::new();
    let id = reg.open_session();
    let first = HttpRequestReplyEvent::new(Ok(plain_response(200, b"one")), id);
    let second = HttpRequestReplyEvent::new(Ok(plain_response(200, b"two")), id);
    let _ = http_request_events_system(&mut reg, vec![first, second]);
    let resp = reg.take_reply(id).unwrap().unwrap();
    assert_eq!(resp.body, b"one".to_vec());
    assert!(reg.take_reply(id).is_none());
}

#[test]
fn taken_envelope_yields_taken_fault() {
    let mut ev = HttpRequestReplyEvent::new(Ok(plain_response(200, b"x")), 1);
    assert!(ev.take().is_ok());
    let again = ev.take();
    assert!(again.is_err());
    assert_eq!(again.unwrap_err().message(), "[taken data]");
}

#[test]
fn exchange_accepts_exactly_one_request() {
    let mut reg = SessionRegistry::new();
    let id = reg.open_session();
    let mut servicer = HttpSingleServicer::new(id);
    assert!(servicer.poll_ready().is_ok());
    let _fut = servicer.call(&mut reg, get("/x"));
    let not_ready = servicer.poll_ready();
    assert!(not_ready.is_err());
    assert_eq!(not_ready.unwrap_err().message(), "Request finalized.");
}

#[test]
fn pending_reply_handle_resolves_once_reply_arrives() {
    let mut reg = SessionRegistry::new();
    let id = reg.open_session();
    let mut servicer = HttpSingleServicer::new(id);
    let mut fut = servicer.call(&mut reg, get("/x"));
    match fut.poll(&mut reg) {
        ServicePoll::Pending => {},
        ServicePoll::Ready(_) => panic!("no reply was placed yet"),
    }
    let _ = http_request_events_system(&mut reg, Vec::new());
    reg.submit_reply(id, Ok(plain_response(200, b"done")));
    match fut.poll(&mut reg) {
        ServicePoll::Ready(Ok(resp)) => {
            assert_eq!(resp.status, 200);
            assert_eq!(resp.body, b"done".to_vec());
        },
        _ => panic!("the reply must resolve the handle"),
    }
}

#[test]
fn torn_down_session_resolves_handle_with_early_termination_fault() {
    let mut reg = SessionRegistry::new();
    let id = reg.open_session();
    let mut servicer = HttpSingleServicer::new(id);
    let mut fut = servicer.call(&mut reg, get("/x"));
    reg.mark_finished(id);
    http_finalizer(&mut reg);
    match fut.poll(&mut reg) {
        ServicePoll::Ready(Err(fault)) => assert_eq!(fault, ReplyFault::EarlyTermination),
        _ => panic!("a reaped session must fault the handle, not hang it"),
    }
}

#[test]
fn fresh_future_handle_is_buildable_directly() {
    let mut reg = SessionRegistry::new();
    let id = reg.open_session();
    let mut fut = HttpSingleServicerFuture::new(id);
    match fut.poll(&mut reg) {
        ServicePoll::Pending => {},
        ServicePoll::Ready(_) => panic!("nothing was submitted"),
    }
}

#[test]
fn acceptor_steps_follow_the_drain_rules() {
    let mut reg = SessionRegistry::new();
    match http_request_listener_step(&mut reg, AcceptOutcome::Connection) {
        AcceptAction::Spawn(id) => assert!(reg.contains_session(id)),
        _ => panic!("a connection spawns a task"),
    }
    assert_eq!(http_request_listener_step(&mut reg, AcceptOutcome::WouldBlock), AcceptAction::Stop);
    assert_eq!(http_request_listener_step(&mut reg, AcceptOutcome::Error), AcceptAction::Retry);
}

#[test]
fn fresh_registry_can_allocate_sessions() {
    let mut reg = SessionRegistry::new();
    assert!(reg.can_open_session());
    let a = reg.open_session();
    let b = reg.open_session();
    assert_ne!(a, b);
}

#[test]
fn only_bind_failure_is_fatal() {
    assert_eq!(listener_bind_step(true), BindAction::Proceed);
    assert_eq!(listener_bind_step(false), BindAction::ExitProcess);
}

#[test]
fn fallback_reply_builders_address_the_right_session() {
    let mut ev = reply_request_404(42);
    assert_eq!(ev.ent(), 42);
    let resp = ev.take().unwrap().unwrap();
    assert_eq!(resp.status, 404);
    let mut ev = reply_request_500(43);
    assert_eq!(ev.ent(), 43);
    let resp = ev.take().unwrap().unwrap();
    assert_eq!(resp.status, 500);
    assert_eq!(resp.body, b"500 Internal Server Error.".to_vec());
}
