[package]
name = "supergateway"
version = "0.1.0"
edition = "2021"
publish = false

[dependencies]
anyhow = "=1.0.104"
asupersync = { version = "=0.2.9", default-features = false }
base64 = "=0.22.1"
clap = { version = "=4.6.7", features = ["derive"] }
nix = { version = "=0.31.3", features = ["signal", "process"] }
regex = "=1.13.1"
serde = { version = "=1.0.229", features = ["derive"] }
serde_json = { version = "=1.0.154", features = ["raw_value"] }
sha2 = "=0.10.9"
thiserror = "=2.0.21"
uuid = { version = "=1.29.0", features = ["v4"] }
