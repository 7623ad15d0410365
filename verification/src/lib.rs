//! Core of a minimal tick-driven HTTP server.
//!
//! Each accepted connection serves exactly one request/response exchange.
//! A cooperative tick loop drives the connection acceptor, the session
//! registry and the router; per-connection tasks run the protocol engine
//! over an I/O adapter and a single-exchange service.  The modules here
//! hold the decision logic of those pieces; the surrounding process owns
//! the sockets, the scheduler and the protocol engine.

pub mod acceptor;
pub mod assets;
pub mod error_replies;
pub mod exchange;
pub mod http_model;
pub mod io_adapter;
pub mod registry;
pub mod router;
pub mod serve;
pub mod sitemap;
