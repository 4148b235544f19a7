[package]
name = "phantomchat_core"
version = "0.1.0"
edition = "2021"
publish = false

[dependencies]
sha2 = "*"
hmac = "*"
hkdf = "*"
chacha20poly1305 = "*"
x25519-dalek = "*"
rand_core = { version = "0.6", features = ["getrandom"] }
clap = { version = "*", features = ["derive"] }
serde_json = "*"
base64 = "*"
hex = "*"
anyhow = "*"
async-trait = "*"
tokio = { version = "*", features = ["rt-multi-thread", "macros", "time", "sync"] }
