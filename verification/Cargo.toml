[package]
name = "wastebin"
version = "0.1.0"
edition = "2021"
publish = false

[dependencies]
rand = "0.8"
axum = "=0.6.20"
axum-extra = { version = "=0.7.7", features = ["cookie-signed"] }
once_cell = "1"
serde = { version = "1", features = ["derive"] }
thiserror = "1"
tokio = { version = "1", features = ["rt-multi-thread", "macros", "signal"] }
tower-http = { version = "=0.4.4", features = ["compression-full", "timeout", "trace"] }
tracing = "0.1"
tracing-subscriber = "0.3"
