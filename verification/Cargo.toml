[package]
name = "restore_rehearsal_card"
version = "0.1.0"
edition = "2021"
publish = false

[dependencies]
base64 = "0.22"
clap = { version = "4", features = ["derive"] }
ed25519-dalek = "2"
getrandom = "0.2"
serde = { version = "1", features = ["derive"] }
serde_json = "1"
serde_yaml = "0.9"
sha2 = "0.10"
time = { version = "0.3", features = ["formatting"] }
toml = "0.8"
wait-timeout = "0.2"
