[package]
name = "turn"
version = "0.1.0"
edition = "2021"
publish = false

[dependencies]
futures = "0.3"
log = "0.4"
stun = "*"
tokio = { version = "1", features = ["macros", "net", "rt", "rt-multi-thread", "sync", "time"] }
webrtc-util = "*"

[dev-dependencies]
rand = "*"
