[package]
name = "distsync"
version = "0.1.0"
edition = "2021"
publish = false

[dependencies]
urlencoding = "2"
url = "2"
glob = "0.3"
toml = "0.8"
serde = { version = "1", features = ["derive"] }
