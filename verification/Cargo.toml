[package]
name = "bytemaker"
version = "0.1.0"
edition = "2021"
publish = false

[dependencies]
regex = "1"
serde_json = { version = "1", features = ["preserve_order"] }
serde_yaml = "0.9"
fastrand = "2"
serde = { version = "1", features = ["derive"] }
tokio = { version = "1", features = ["full"] }
tokio-util = "0.7"
reqwest = { version = "0.12", default-features = false, features = ["json", "stream", "rustls-tls"] }
eventsource-stream = "0.2"
futures-util = "0.3"
async-trait = "0.1"
colored = "2"
crossterm = "*"
reedline = "*"
dotenv = "0.15"
dunce = "1"
fs4 = "0.12"
glob = "0.3"
rmcp = { version = "*", features = ["client", "transport-child-process"] }
thiserror = "2"
tracing = "0.1"
tracing-subscriber = { version = "0.3", features = ["env-filter"] }

[dev-dependencies]
tempfile = "3"
