[package]
name = "webdav_ss"
version = "0.1.0"
edition = "2021"
publish = false

[dependencies]
anyhow = "=1.0.104"
base64 = "=0.13.1"
bincode = "1"
bytes = "=1.12.1"
chacha20 = "=0.9.1"
chrono = "=0.4.45"
clap = "=2.34.0"
config = "=0.11.0"
futures-util = "=0.3.34"
hyper = { version = "=0.14.32", features = ["client", "server", "http1", "http2", "tcp", "stream"] }
kv = "=0.24.0"
rusty-s3 = "=0.10.2"
serde = { version = "=1.0.229", features = ["derive"] }
serde_yaml = "=0.8.26"
thiserror = "=1.0.69"
tokio = { version = "=1.54.1", features = ["rt-multi-thread", "macros", "io-util", "net", "time", "sync"] }
toml = "=0.5.11"
tracing = "=0.1.44"
tracing-log = "=0.1.4"
tracing-subscriber = { version = "=0.3.23", features = ["env-filter"] }
url = "=2.5.8"
webdav-handler = "=0.2.0"
