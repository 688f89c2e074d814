[package]
name = "reel"
version = "0.1.0"
edition = "2021"
publish = false

[dependencies]
async-trait = "0.1"
blake3 = "1"
bytes = { version = "1", features = ["serde"] }
chrono = { version = "0.4", features = ["serde"] }
ciborium = "0.2"
imbl = { version = "7", features = ["serde"] }
moka = { version = "0.12", features = ["sync"] }
proc-macro2 = "1"
quote = "1"
redb = "*"
serde = { version = "1", features = ["derive"] }
serde_json = "1"
smol_str = { version = "0.3", features = ["serde"] }
syn = { version = "2", features = ["full"] }
thiserror = "2"
uuid = { version = "1", features = ["v7", "serde"] }
