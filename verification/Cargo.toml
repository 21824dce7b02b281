[package]
name = "blackswan"
version = "0.1.0"
edition = "2021"
publish = false

[dependencies]
aya = "0.12"
clap = { version = "4", features = ["derive"] }
libc = "0.2"
serde = { version = "1", features = ["derive"] }
serde_json = "1"
thiserror = "1"
toml = "0.8"
