[package]
name = "correctness_bench"
version = "0.1.0"
edition = "2021"
publish = false

[dependencies]
anyhow = "1"
async-stream = "0.3"
axum = "0.7"
base64 = "=0.22.1"
clap = { version = "4", features = ["derive", "env"] }
flate2 = "=1.1.10"
futures-util = "0.3"
hdrhistogram = "=7.6.0"
http = "=1.5.0"
httparse = "=1.10.1"
prost = "0.13"
reqwest = { version = "0.12", default-features = false, features = ["json", "stream"] }
serde = { version = "1", features = ["derive"] }
serde_json = "1"
tokio = { version = "1", features = ["full"] }
tokio-util = "0.7"
tonic = "0.12"
tracing = "0.1"
tracing-subscriber = { version = "0.3", features = ["json", "env-filter"] }
uuid = { version = "1", features = ["v4"] }
