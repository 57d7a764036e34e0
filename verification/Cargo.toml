[package]
name = "heavy"
version = "0.1.0"
edition = "2021"
publish = false

[dependencies]
arc-swap = "1"
askama = "*"
blake3 = "1"
chacha20 = { version = "*", features = ["cipher"] }
fs4 = "*"
getrandom = "*"
hex = "0.4"
http-body-util = "0.1"
hyper = { version = "1", features = ["client", "http1", "http2", "server"] }
hyper-util = { version = "0.1", features = ["http1", "http2", "server", "server-auto", "tokio"] }
ipnet = "2"
prefix-trie = { version = "*", features = ["ipnet"] }
rand = "*"
regex = "1"
serde = { version = "1", features = ["derive"] }
serde_json = "1"
tokio = { version = "1", features = ["full"] }
toml = "*"
