[package]
name = "klaro"
version = "0.1.0"
edition = "2021"
publish = false

[dependencies]
regex = "1"
sha2 = "0.10"
hex = "0.4"
rand = "0.9"
fake = "4"
csv = "1"
calamine = "*"
base64 = "0.22"
serde = { version = "1", features = ["derive"] }
serde_json = "1"
candle-core = { version = "*", default-features = false }
candle-nn = { version = "*", default-features = false }
candle-transformers = { version = "*", default-features = false }
tokenizers = { version = "*", default-features = false, features = ["onig"] }
