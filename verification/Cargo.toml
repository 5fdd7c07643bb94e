[package]
name = "nf_tunnel"
version = "0.1.0"
edition = "2021"
publish = false

[dependencies]
rust-crypto = "*"
tokio = { version = "*", features = ["full"] }
clap = "*"
log = "*"

[dev-dependencies]
serde_json = "*"
