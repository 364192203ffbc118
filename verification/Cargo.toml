[package]
name = "dgg_chat"
version = "0.1.0"
edition = "2021"
publish = false

[dependencies]
url = "2"
cached = { version = "*", default-features = false }
tokio = { version = "1", features = ["rt-multi-thread", "macros", "net", "sync", "time", "io-util"] }
tokio-tungstenite = { version = "*", features = ["native-tls"] }
futures-util = "0.3"
native-tls = "0.2"
reqwest = "0.12"

[dev-dependencies]
serde_json = "1"
