[package]
name = "xline_operator"
version = "0.1.0"
edition = "2021"
publish = false

[dependencies]
anyhow = "*"
async-trait = "=0.1.92"
axum = "=0.8.9"
clap = { version = "=4.6.7", features = ["derive"] }
flume = "=0.12.0"
futures = "*"
lazy_static = "*"
prometheus = "=0.14.0"
reqwest = { version = "=0.13.5", default-features = false, features = ["json"] }
serde = { version = "*", features = ["derive"] }
serde_json = "*"
thiserror = "*"
tokio = { version = "=1.53.2", features = ["rt-multi-thread", "macros", "signal", "time", "sync", "fs", "io-util", "net"] }
tracing = "*"
tracing-subscriber = "*"
uuid = { version = "=1.27.0", features = ["v4"] }
