[package]
name = "origilink"
version = "0.1.0"
edition = "2021"
publish = false

[dependencies]
base64 = "=0.22.1"
bip39 = { version = "=2.2.2", features = ["rand"] }
chacha20poly1305 = "=0.10.1"
hex = "=0.4.3"
nostr = { version = "=0.44.8", features = ["nip06", "nip44", "nip59"] }
nostr-database = "=0.44.0"
nostr-lmdb = "=0.44.1"
sha2 = "=0.11.1"
vodozemac = "=0.11.1"
serde = { version = "=1.0.229", features = ["derive"] }
serde_json = "=1.0.154"
tokio = { version = "=1.54.1", features = ["rt-multi-thread", "time", "sync", "macros"] }
tokio-tungstenite = { version = "=0.30.0", features = ["rustls-tls-webpki-roots"] }
futures-util = "=0.3.34"
rustls = { version = "=0.23.46", default-features = false, features = ["ring", "std"] }
