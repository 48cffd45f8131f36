[package]
name = "freenet_bitcoin"
version = "0.1.0"
edition = "2021"
publish = false

[dependencies]
anyhow = "=1.0.104"
axum = "=0.8.9"
bitcoin = "=0.32.102"
bitcoincore-rpc = "=0.19.0"
blake3 = "=1.8.7"
bs58 = "=0.5.1"
ciborium = "=0.2.2"
clap = { version = "=4.6.7", features = ["derive"] }
ed25519-dalek = "=2.2.0"
freenet-migrate = "=0.8.0"
freenet-stdlib = { version = "=0.12.1", features = ["net"] }
ghostkey_lib = "=0.2.0"
hex = "=0.4.3"
rand = "=0.8.8"
rusqlite = { version = "=0.41.1", features = ["bundled"] }
serde = { version = "=1.0.229", features = ["derive"] }
serde_json = "=1.0.154"
sha2 = "=0.10.9"
tokio = { version = "=1.54.1", features = ["full"] }
tokio-tungstenite = "=0.27.0"
toml = "=1.1.8"
tower-http = { version = "=0.7.1", features = ["limit"] }
tracing = "=0.1.44"
tracing-subscriber = { version = "=0.3.23", features = ["env-filter"] }
