[package]
name = "gossip_lib"
version = "0.1.0"
edition = "2021"
publish = false

[dependencies]
base64 = "0.21"
futures-util = "0.3"
http = "1"
nostr-types = "*"
rand = "0.8"
reqwest = { version = "0.11", default-features = false, features = ["json", "rustls-tls"] }
serde_json = "1"
textnonce = "1"
tokio = { version = "1", features = ["macros", "net", "rt", "sync", "time"] }
tokio-tungstenite = { version = "0.21", features = ["rustls-tls-webpki-roots"] }
tracing = "0.1"
tungstenite = "0.21"
