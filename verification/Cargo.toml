[package]
name = "blvm_stratum_v2"
version = "0.1.0"
edition = "2021"
publish = false

[dependencies]
sha2 = "=0.10.9"
hex = "=0.4.3"
serde = { version = "1", features = ["derive"] }
serde_json = "1"
bincode = "1"
thiserror = "1"
tokio = { version = "1", features = ["rt-multi-thread", "macros", "sync", "time"] }
tracing = "0.1"
anyhow = "1"
async-trait = "0.1"
futures = "0.3"
blvm-protocol = "=0.1.39"
blvm-consensus = "=0.1.73"
blvm-node = { version = "0.1.83", default-features = false }
blvm-sdk = { version = "0.1.20", default-features = false }
