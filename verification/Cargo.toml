[package]
name = "kizzasi"
version = "0.1.0"
edition = "2021"
publish = false

[dependencies]
async-stream = "=0.3.6"
async-trait = "=0.1.92"
axum = { version = "=0.8.9", features = ["ws", "json"] }
bytes = "=1.12.1"
chrono = "=0.4.45"
cpal = "=0.18.2"
crossbeam-queue = "=0.3.14"
csv = "=1.4.0"
futures = "=0.3.34"
half = "=2.7.1"
hound = "=3.5.1"
http = "=1.5.0"
http-body = "=1.1.0"
oxifft = "=0.4.2"
prost = "=0.14.4"
rmp-serde = "=1.3.1"
rosc = "=0.11.4"
rumqttc = "=0.25.1"
rustfft = "=6.4.1"
scirs2-core = { version = "=0.6.5", default-features = false, features = ["std"] }
serde = { version = "=1.0.229", features = ["derive"] }
serde_json = "=1.0.154"
thiserror = "=2.0.21"
tokio = { version = "=1.54.1", features = ["full"] }
tokio-stream = { version = "=0.1.19", features = ["sync"] }
tokio-tungstenite = "=0.30.0"
tonic = "=0.14.9"
tower-http = { version = "=0.7.1", features = ["cors", "trace"] }
tower-service = "=0.3.3"
tracing = "=0.1.44"
