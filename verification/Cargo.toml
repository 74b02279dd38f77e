[package]
name = "dratchet"
version = "0.1.0"
edition = "2021"
publish = false

[dependencies]
argon2 = "0.5"
axum = { version = "0.7", features = ["ws"] }
chacha20poly1305 = "0.10"
ciborium = "0.2"
clap = { version = "4", features = ["derive", "env"] }
futures-util = "0.3"
rand_core = { version = "0.6", features = ["getrandom"] }
redb = "2"
serde = { version = "1", features = ["derive"] }
serde_bytes = "0.11"
sha2 = "0.10"
thiserror = "1"
tokio = { version = "1", features = ["macros", "net", "rt-multi-thread", "signal", "sync", "time"] }
tracing = "0.1"
tracing-subscriber = { version = "0.3", features = ["env-filter"] }
x25519-dalek = { version = "2", features = ["static_secrets"] }
zeroize = "1"
