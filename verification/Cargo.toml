[package]
name = "wasm_shim"
version = "0.1.0"
edition = "2021"
publish = false

[dependencies]
regex = "=1.13.1"
radix_trie = "=0.2.1"
serde = { version = "=1.0.229", features = ["derive"] }
serde_json = "=1.0.154"
proxy-wasm = "=0.2.5"
log = "=0.4.35"
protobuf = "=2.28.0"
urlencoding = "2"
