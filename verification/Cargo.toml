[package]
name = "oracles"
version = "0.1.0"
edition = "2021"
publish = false

[dependencies]
anyhow = "=1.0.104"
axum = "=0.8.9"
bech32 = "=0.11.1"
chacha20poly1305 = "=0.10.1"
clap = { version = "=4.6.7", features = ["derive"] }
config = { version = "0.15", default-features = false, features = ["yaml"] }
ed25519-dalek = { version = "=2.2.0", features = ["rand_core", "pem"] }
frost-ed25519 = "=2.2.0"
futures = "=0.3.34"
hex = "=0.4.3"
minicbor = { version = "=0.25.1", features = ["derive", "std"] }
num-bigint = "=0.4.8"
num-integer = "=0.1.47"
num-rational = "=0.4.2"
num-traits = "=0.2.19"
pallas-crypto = "=0.32.1"
pallas-primitives = "=0.32.1"
rand = "=0.8.8"
reqwest = { version = "=0.12.28", default-features = false, features = ["json", "rustls-tls"] }
rust_decimal = "=1.43.0"
serde = { version = "=1.0.229", features = ["derive"] }
serde_json = "=1.0.154"
time = { version = "0.3", features = ["formatting"] }
tokio = { version = "=1.54.1", features = ["full"] }
tokio-tungstenite = { version = "=0.30.0", features = ["rustls-tls-webpki-roots"] }
tracing = "=0.1.44"
tracing-subscriber = { version = "0.3", features = ["json"] }
urlencoding = "=2.1.3"
uuid = { version = "=1.29.0", features = ["v4"] }
x25519-dalek = { version = "=2.0.1", features = ["static_secrets"] }
