[package]
name = "kirin-gateway"
version = "0.1.0"
edition = "2021"
publish = false

[dependencies]
async-trait = "0.1"
futures-util = "0.3"
http-body-util = "0.1"
hyper = { version = "1", features = ["http1", "server"] }
hyper-util = { version = "0.1", features = ["tokio"] }
ipnet = "2"
jsonwebtoken = { version = "10", features = ["rust_crypto"] }
log = "0.4"
notify = "8"
pingora-core = "0.8"
pingora-http = "0.8"
pingora-load-balancing = "0.8"
pingora-proxy = "0.8"
prometheus = { version = "0.14", default-features = false }
regex = "1"
serde = { version = "1", features = ["derive"] }
serde_json = { version = "1", features = ["raw_value"] }
serde_yaml = "0.9"
tokio = { version = "1", features = ["net", "rt", "rt-multi-thread", "time"] }
tracing = "0.1"
tracing-subscriber = { version = "0.3", features = ["json", "time"] }

[dev-dependencies]
tempfile = "3"
