[package]
name = "messenger"
version = "0.1.0"
edition = "2021"
publish = false

[dependencies]
chacha20poly1305 = "0.10"
ed25519-dalek = { version = "2", features = ["rand_core"] }
sha2 = "0.10"
hkdf = "0.12"
rand_core = { version = "0.6", features = ["getrandom"] }
bip39 = { version = "2", features = ["rand"] }
unicode-normalization = "0.1"
openmls = "*"
openmls_rust_crypto = "*"
openmls_basic_credential = "*"
openmls_traits = "*"
tls_codec = "*"
rusqlite = "*"
tokio = { version = "1", features = ["full"] }
axum = { version = "0.8", features = ["ws"] }
tower-http = { version = "0.6", features = ["catch-panic", "request-id", "trace"] }
sqlx = { version = "0.8", default-features = false, features = ["runtime-tokio", "postgres"] }
reqwest = { version = "0.12", default-features = false, features = ["rustls-tls"] }
tokio-tungstenite = "*"
futures-util = "0.3"
async-trait = "0.1"
tracing = "0.1"
tracing-subscriber = { version = "0.3", features = ["json", "env-filter"] }
