[package]
name = "sui_types"
version = "0.1.0"
edition = "2021"
publish = false

[dependencies]
sha3 = "=0.10.9"
ed25519-dalek = "=2.2.0"
blst = "=0.3.17"
roaring = "=0.10.12"
signature = "=2.2.0"
base64ct = { version = "=1.8.3", features = ["alloc"] }
byteorder = "=1.5.0"
move-core-types = "=0.0.3"
serde = { version = "=1.0.229", features = ["derive"] }
anyhow = "=1.0.104"
tracing = "=0.1.44"
tokio = { version = "=1.54.1", features = ["rt", "sync"] }
prometheus = { version = "=0.13.4", default-features = false }
parking_lot = "=0.12.5"
futures = "=0.3.34"
tower = "=0.4.13"
