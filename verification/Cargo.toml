[package]
name = "hybridconsensus"
version = "0.1.0"
edition = "2021"
publish = false

[dependencies]
sha2 = "0.10"
rand = "0.8"
aes-gcm = "0.10"
pqcrypto-kyber = "0.8"
pqcrypto-traits = "0.3"
serde = { version = "1", features = ["derive"] }
serde_json = "1"
tokio = { version = "1", features = ["rt-multi-thread", "macros", "sync", "time"] }
dashmap = "5"
async-trait = "0.1"
chrono = "0.4"
thiserror = "1"
tracing = "0.1"
tracing-subscriber = "0.3"
metrics = "0.23"
