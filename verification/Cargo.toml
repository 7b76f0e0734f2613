[package]
name = "ipscan_rs"
version = "0.1.0"
edition = "2021"
publish = false

[dependencies]
tokio = { version = "*", features = ["full"] }
surge-ping = "*"
dns-lookup = "*"
clap = { version = "*", features = ["derive"] }
tracing = "*"
tracing-subscriber = "*"
serde = { version = "*", features = ["derive"] }
thiserror = "*"
pnet = "*"
