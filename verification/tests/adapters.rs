use tickhttp::http_model::{Method, ServiceConfig};
use tickhttp::io_adapter::{
    classify_flush_result, classify_io_result, FlushPoll, IoPoll, TransportError,
};

#[test]
fn successful_read_or_write_is_ready_with_its_count() {
    assert_eq!(classify_io_result(Ok(0)), IoPoll::Ready(0));
    assert_eq!(classify_io_result(Ok(4096)), IoPoll::Ready(4096));
}

#[test]
fn would_block_suspends_instead_of_failing() {
    assert_eq!(classify_io_result(Err(TransportError::WouldBlock)), IoPoll::Pending);
    assert_eq!(classify_flush_result(Err(TransportError::WouldBlock)), FlushPoll::Pending);
}

#[test]
fn genuine_transport_errors_surface_immediately() {
    assert_eq!(classify_io_result(Err(TransportError::Fatal)), IoPoll::Fault);
    assert_eq!(classify_flush_result(Err(TransportError::Fatal)), FlushPoll::Fault);
}

#[test]
fn successful_flush_completes() {
    assert_eq!(classify_flush_result(Ok(())), FlushPoll::Flushed);
}

#[test]
fn config_holds_maps_and_addresses_in_order() {
    let cfg = ServiceConfig {
        sitemaps: vec!["site.map".to_string()],
        bind_addresses: vec!["0.0.0.0:8080".to_string(), "0.0.0.0:8081".to_string()],
    };
    assert_eq!(cfg.sitemaps.len(), 1);
    assert_eq!(cfg.bind_addresses[0], "0.0.0.0:8080");
}

#[test]
fn request_duplicate_copies_method_and_path() {
    let req = tickhttp::http_model::HttpRequest::new(Method::Head, "/p".to_string());
    let copy = req.duplicate();
    assert_eq!(copy.method, Method::Head);
    assert_eq!(copy.path, "/p");
}
