[package]
name = "zep_clockify"
version = "0.1.0"
edition = "2021"
publish = false

[dependencies]
anyhow = "=1.0.104"
chrono = "=0.4.45"
hyper = { version = "=0.14.32", features = ["client", "http1", "http2", "tcp"] }
hyper-tls = "=0.5.0"
log = "=0.4.34"
proc-macro2 = "1"
quick-error = "=2.0.1"
quote = "1"
serde = { version = "=1.0.229", features = ["derive"] }
serde_json = "=1.0.154"
simple-logging = "=2.0.2"
syn = { version = "2", features = ["full"] }
