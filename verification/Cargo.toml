[package]
name = "l337_audio_server"
version = "0.1.0"
edition = "2021"
publish = false

[dependencies]
rand = "=0.8.8"
chrono = "=0.4.45"
tokio = { version = "=1.54.1", features = ["full"] }
axum = "=0.7.9"
axum-server = { version = "=0.7.3", features = ["tls-rustls"] }
hyper = { version = "=1.12.0", features = ["http1", "server"] }
hyper-util = { version = "=0.1.21", features = ["tokio", "service", "server"] }
tower = "=0.5.3"
tower-http = { version = "=0.6.11", features = ["limit"] }
tracing = "=0.1.44"
tracing-subscriber = { version = "=0.3.23", features = ["env-filter"] }
serde = { version = "=1.0.229", features = ["derive"] }
serde_json = "=1.0.154"
config = "=0.14.1"
dirs = "=5.0.1"
walkdir = "=2.5.0"
rcgen = "=0.13.2"
rustls = { version = "=0.23.46", default-features = false, features = ["ring", "std", "logging", "tls12"] }
reqwest = { version = "=0.12.28", default-features = false, features = ["rustls-tls", "stream"] }
futures-util = "=0.3.34"
symphonia = { version = "=0.5.5", features = ["mp3", "aac", "isomp4"] }
rubato = "=0.15.0"
libloading = "=0.8.9"
libc = "=0.2.191"
async-trait = "=0.1.92"
