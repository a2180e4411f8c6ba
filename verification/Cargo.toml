[package]
name = "smb_server"
version = "0.1.0"
edition = "2021"
publish = false

[dependencies]
aes = "0.8"
aes-gcm = "0.10"
async-trait = "0.1"
bytes = "1"
hmac = "0.12"
quinn = { version = "0.11", default-features = false, features = ["runtime-tokio", "rustls-ring"] }
sha2 = "0.10"
thiserror = "2"
tokio = { version = "1", features = ["io-util", "macros", "net", "rt-multi-thread", "sync", "time"] }
tracing = "0.1"
uuid = "1"
