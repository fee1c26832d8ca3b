[package]
name = "msi_klc"
version = "0.1.0"
edition = "2021"
publish = false

[dependencies]
anyhow = "1"
clap = { version = "4", features = ["derive"] }
nix = { version = "0.29", features = ["ioctl", "poll", "signal"] }
serde = { version = "1", features = ["derive"] }
serde_json = "1"
