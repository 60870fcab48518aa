[package]
name = "push_decode"
version = "0.1.0"
edition = "2021"
publish = false

[dependencies]
tokio = { version = "*", default-features = false, features = ["io-util"] }
async-std = { version = "*", default-features = false, features = ["std"] }
futures-io = "*"
pin-project-lite = "*"
lgio = "*"
