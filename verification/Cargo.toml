[package]
name = "xds_code"
version = "0.1.0"
edition = "2021"
publish = false

[dependencies]
dirs = "*"
nix = { version = "*", features = ["signal"] }
serde = { version = "1", features = ["derive"] }
serde_json = "1"
tauri = { version = "2", default-features = false }
