[package]
name = "residiuum-sdk"
version = "0.1.0"
edition = "2021"
publish = false

[dependencies]
blake3 = { version = "1", features = ["pure"] }
getrandom = "0.3"
hashbrown = "0.15"
serde = { version = "1", features = ["derive"] }
serde_json = "1"
thiserror = "2"
