[package]
name = "sn2_validator"
version = "0.1.0"
edition = "2021"
publish = false

[dependencies]
anyhow = "1"
base64 = "0.22"
bytes = "1"
clap = { version = "4", features = ["derive", "env"] }
ctor = "0.2"
dirs-next = "2"
flate2 = "1"
futures-util = "0.3"
hex = "0.4"
libc = "0.2"
metrics = "0.24"
metrics-exporter-prometheus = { version = "0.16", default-features = false, features = ["http-listener"] }
mimalloc = "0.1"
ndarray = "0.16"
rand = "0.9"
reqwest = { version = "0.12", default-features = false, features = ["rustls-tls", "json"] }
rmp-serde = "1"
rmpv = "1"
rustls = { version = "0.23", default-features = false, features = ["ring", "std"] }
serde = { version = "1", features = ["derive"] }
serde_json = "1"
sha2 = "0.10"
tokio = { version = "1", features = ["full"] }
tokio-tungstenite = "0.24"
tracing = "0.1"
uuid = { version = "1", features = ["v4"] }
