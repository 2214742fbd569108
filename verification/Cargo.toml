[package]
name = "multiparty_payjoin"
version = "0.1.0"
edition = "2021"
publish = false

[dependencies]
bitcoin = { version = "=0.32.102", features = ["rand-std"] }
bitcoin-hpke = "=0.13.0"
bitcoin-ohttp = "=0.6.0"
bhttp = "=0.6.1"
http = "=1.5.0"
serde = { version = "=1.0.229", features = ["derive"] }
serde_json = "=1.0.154"
percent-encoding-rfc3986 = "=0.1.3"
bitcoin-uri-composer = "=0.1.0"
futures = "=0.3.34"
reqwest = { version = "=0.12.28", default-features = false }
tokio = { version = "=1.54.1", features = ["time", "rt"] }
hyper = "=1.12.0"
hyper-util = { version = "=0.1.21", features = ["client-legacy", "tokio", "http1"] }
http-body-util = "=0.1.5"
nostr = "=0.43.1"
