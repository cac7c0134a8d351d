[package]
name = "davenport"
version = "0.1.0"
edition = "2021"
publish = false

[dependencies]
anyhow = "1"
axum = "0.8"
bytes = "1"
calcard = "*"
chrono = "0.4"
chrono-tz = "*"
fast-dav-rs = "*"
http = "1"
rmcp = { version = "*", features = ["server", "macros", "transport-streamable-http-server"] }
schemars = "1"
serde = { version = "1", features = ["derive"] }
serde_json = "1"
tokio = { version = "1", features = ["macros", "rt-multi-thread", "net", "signal", "sync"] }
tracing = "0.1"
tracing-subscriber = { version = "0.3", features = ["env-filter"] }
uuid = { version = "1", features = ["v4"] }
