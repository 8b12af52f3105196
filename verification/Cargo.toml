[package]
name = "webrtc_sctp"
version = "0.1.0"
edition = "2021"
publish = false

[dependencies]
bytes = "0.4"
futures = "0.1"
nom = { version = "5", default-features = false, features = ["std"] }
tokio = "0.1"
