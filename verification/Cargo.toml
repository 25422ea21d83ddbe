[package]
name = "nym_hs"
version = "0.1.0"
edition = "2021"
publish = false

[dependencies]
bech32 = "0.7"
bincode = "1.3"
bs58 = "0.3"
futures = "0.3"
rand = "0.7"
serde_json = "1.0"
structopt = "0.3"
tokio = { version = "0.2", features = ["full"] }
tokio-tungstenite = "0.11"
tracing = "0.1"
tracing-subscriber = "0.2"
tungstenite = { version = "0.11", default-features = false }

[dev-dependencies]
serde = "1.0"
