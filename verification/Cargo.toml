[package]
name = "tickhttp"
version = "0.1.0"
edition = "2021"
publish = false

[dependencies]
mime_guess = "=2.0.5"
hyper = { version = "=0.14.32", features = ["server", "http1"] }
tokio = { version = "=1.53.2", features = ["rt-multi-thread"] }
serde = { version = "=1.0.229", features = ["derive"] }
ron = "=0.8.1"
log = "=0.4.34"
fern = "=0.6.2"
chrono = "=0.4.45"
