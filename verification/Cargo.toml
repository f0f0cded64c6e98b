[package]
name = "turbo_serving"
version = "0.1.0"
edition = "2021"
publish = false

[dependencies]
axum = "=0.8.9"
bytes = "=1.12.1"
clap = { version = "=4.6.7", features = ["derive"] }
futures-core = "=0.3.34"
libc = "=0.2.191"
ort = { version = "=2.0.0-rc.13", default-features = false, features = ["cuda", "load-dynamic"] }
serde = { version = "=1.0.229", features = ["derive"] }
serde_json = "=1.0.154"
tokio = { version = "=1.54.1", features = ["macros", "net", "rt-multi-thread", "signal", "sync"] }
tonic = "=0.14.9"
tower = "=0.5.3"
