[package]
name = "onvif_client"
version = "0.1.0"
edition = "2021"
publish = false

[dependencies]
base64 = "0.22"
sha1 = "0.10"
rand = "0.9"
uuid = { version = "1", features = ["v4"] }
tokio = { version = "1", features = ["net", "rt-multi-thread", "macros", "time"] }
hyper = { version = "1", features = ["client", "http1"] }
hyper-util = { version = "0.1", features = ["tokio"] }
http-body-util = "0.1"
color-eyre = "0.6"
tracing = "0.1"
tracing-subscriber = "0.3"
serde = { version = "1", features = ["derive"] }
