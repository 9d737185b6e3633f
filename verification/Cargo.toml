[package]
name = "mycode"
version = "0.1.0"
edition = "2021"
publish = false

[dependencies]
similar = "2"
serde_json = "1"
tokio = { version = "1", features = ["rt", "sync", "time", "macros"] }
futures = "0.3"
eventsource-stream = "0.2"
bytes = "1"

[dev-dependencies]
pretty_assertions = "1"
