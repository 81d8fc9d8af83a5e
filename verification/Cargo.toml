[package]
name = "massa_execution"
version = "0.1.0"
edition = "2021"
publish = false

[dependencies]
anyhow = "1"
displaydoc = "0.2"
massa-sc-runtime = "*"
rand = "0.8"
rand_xoshiro = "0.6"
serde_json = "1"
thiserror = "1"
tokio = { version = "1", default-features = false, features = ["sync"] }
tracing = "0.1"
