[package]
name = "mumu_core"
version = "0.1.0"
edition = "2021"
publish = false

[dependencies]
chacha20poly1305 = "=0.10.1"
hkdf = "=0.12.4"
sha2 = "=0.10.9"
x25519-dalek = { version = "=2.0.1", features = ["static_secrets"] }
pqc_kyber = { version = "=0.7.1", features = ["std"] }
rand_core = { version = "=0.6.4", features = ["getrandom"] }
tokio = { version = "1", features = ["rt-multi-thread", "macros", "time", "sync", "io-util"] }
wtransport = "*"
dashmap = "*"
noise = "*"
nanorand = "*"
rayon = "*"
anyhow = "*"
bytes = "*"
futures = "*"
parking_lot = "*"
serde = { version = "1", features = ["derive"] }
config = "*"
tracing = "*"
tracing-subscriber = "*"

[dev-dependencies]
borsh = "1"
