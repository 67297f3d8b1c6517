[package]
name = "silverwind"
version = "0.1.0"
edition = "2021"
publish = false

[dependencies]
regex = "*"
rand = "0.8"
futures = "0.3"
serde = { version = "*", features = ["derive"] }
serde_json = "*"
serde_yaml = "*"
thiserror = "*"
tokio = { version = "*", features = ["rt-multi-thread", "net", "io-util", "fs", "sync", "time", "macros"] }
axum = "*"
tower = { version = "*", features = ["util"] }
tower-http = { version = "*", features = ["cors", "trace"] }
http = "*"
bytes = "*"
num_cpus = "*"
