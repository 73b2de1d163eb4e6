[package]
name = "teos"
version = "0.1.0"
edition = "2021"
publish = false

[dependencies]
bitcoin = "0.28"
bitcoincore-rpc = "0.15"
chacha20poly1305 = "0.8"
cln-plugin = "0.1"
hex = "0.4"
home = "0.5"
lightning = "0.0.107"
log = "0.4"
reqwest = { version = "0.11", default-features = false, features = ["json"] }
rusqlite = { version = "0.26", features = ["bundled"] }
serde = { version = "1", features = ["derive"] }
serde_json = "1"
simple_logger = "2"
structopt = "0.3"
tokio = { version = "1", features = ["full"] }
triggered = "0.1"
