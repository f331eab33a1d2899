[package]
name = "rustream"
version = "0.1.0"
edition = "2021"
publish = false

[dependencies]
image = { version = "0.25", default-features = false, features = ["png"] }
regex = "1"
serde = { version = "1", features = ["derive"] }
serde_json = "1"
tokio = { version = "1", features = ["rt-multi-thread", "macros", "net", "sync", "time", "io-util"] }
log = "0.4"
env_logger = { version = "0.11", default-features = false }
dirs = "6"
thiserror = "2"
hound = "3"
scrap = "0.5"
