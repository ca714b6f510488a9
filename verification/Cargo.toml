[package]
name = "davfs_sync"
version = "0.1.0"
edition = "2021"
publish = false

[dependencies]
anyhow = "=1.0.104"
clap = { version = "=4.6.7", features = ["derive"] }
fuser = "=0.18.0"
libc = "=0.2.190"
reqwest = { version = "=0.12.28", default-features = false, features = ["rustls-tls"] }
rpassword = "=7.5.4"
secret-service = { version = "=5.2.0", features = ["rt-tokio-crypto-rust"] }
serde = { version = "=1.0.229", features = ["derive"] }
serde_json = "=1.0.151"
tokio = { version = "=1.53.2", features = ["rt", "rt-multi-thread", "macros", "signal"] }
url = "=2.5.8"
