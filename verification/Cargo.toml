[package]
name = "ward"
version = "0.1.0"
edition = "2021"
publish = false

[dependencies]
rust-ini = "0.21"
mime_guess = "2"
serde = { version = "1", features = ["derive"] }
serde_json = "1"
sysinfo = "0.33"
axum = "0.8"
tokio = { version = "1", features = ["full"] }
tower-http = { version = "0.6", features = ["set-header"] }
askama = "0.12"
rust-embed = "8"
clap = { version = "4", features = ["derive"] }
tracing = "0.1"
tracing-subscriber = "0.3"

[dev-dependencies]
tower = { version = "0.5", features = ["util"] }
