[package]
name = "migration_sim"
version = "0.1.0"
edition = "2021"
publish = false

[dependencies]
hex = "=0.4.3"
sha2 = "=0.10.9"
serde = { version = "=1.0.229", features = ["derive"] }
serde_json = "=1.0.154"
thiserror = "=2.0.21"
wasmparser = "=0.263.0"
stellar-xdr = { version = "=23.0.0", features = ["curr", "std"] }
soroban-sdk = { version = "=29.0.1", features = ["testutils"] }
soroban-ledger-snapshot = "=29.0.1"
