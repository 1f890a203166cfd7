[package]
name = "sedimentology"
version = "0.1.0"
edition = "2021"
publish = false

[dependencies]
base64 = "*"
csv = "*"
flate2 = "*"
serde_json = "*"
zstd = "*"
num-format = "*"
mysql = { version = "=28.0.3", features = ["rustls"] }
clap = { version = "*", features = ["derive"] }
ctrlc = "*"
chrono = "*"
axum = "*"
tokio = { version = "*", features = ["rt-multi-thread", "macros", "net", "time"] }
tokio-stream = "*"
futures = "*"
serde = { version = "*", features = ["derive"] }
serde_derive = "*"
