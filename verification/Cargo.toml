[package]
name = "narwhal_chain"
version = "0.1.0"
edition = "2021"
publish = false

[dependencies]
anyhow = "*"
hex = "*"
pqcrypto-mldsa = "*"
pqcrypto-traits = "*"
revm = "*"
rocksdb = "*"
serde_json = "*"
sha2 = "*"
tokio = { version = "*", features = ["full"] }
uuid = { version = "*", features = ["v4"] }
