[package]
name = "mnemo_core"
version = "0.1.0"
edition = "2021"
publish = false

[dependencies]
sha2 = "0.10"
hex = "0.4"
chrono = { version = "0.4", default-features = false, features = ["clock", "std"] }
uuid = { version = "1", features = ["v7"] }
serde = { version = "1", features = ["derive"] }
serde_json = "1"
regex = "1"
aes-gcm = "0.10"
base64 = "0.22"
zeroize = "1"
thiserror = "1"
