[package]
name = "nodedb"
version = "0.1.0"
edition = "2021"
publish = false

[dependencies]
hmac = "=0.12.1"
sha2 = "=0.10.9"
hex = "=0.4.3"
sled = "=0.34.7"
aes-gcm = "=0.10.3"
rand = "=0.8.8"
rmpv = "=1.3.1"
rmp-serde = "=1.3.1"
serde = { version = "=1.0.229", features = ["derive"] }
chrono = "=0.4.45"
thiserror = "=1.0.69"
uuid = { version = "=1.29.0", features = ["v4"] }
dashmap = "=5.5.3"
tokio = { version = "1", features = ["rt-multi-thread", "macros", "net", "sync", "time"] }
tokio-tungstenite = { version = "0.24", default-features = false, features = ["connect", "handshake", "rustls-tls-webpki-roots"] }
tokio-rustls = { version = "0.26", default-features = false, features = ["ring", "logging", "tls12"] }
rustls = { version = "0.23", default-features = false, features = ["ring", "std", "logging", "tls12"] }
rcgen = "0.13"
mdns-sd = "0.11"
futures-util = "0.3"
tracing = "0.1"

[dev-dependencies]
tempfile = "=3.27.0"
