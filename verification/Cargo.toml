[package]
name = "tunnelium"
version = "0.1.0"
edition = "2021"
publish = false

[dependencies]
keyring = "3"
chrono = { version = "0.4", features = ["serde"] }
uuid = { version = "1", features = ["v4", "serde"] }
serde = { version = "1", features = ["derive"] }
serde_json = "1"
tokio = { version = "1", features = ["full"] }
tokio-util = "0.7"
russh = "*"
if-addrs = "*"
directories = "*"
thiserror = "2"

[dev-dependencies]
tempfile = "3"
