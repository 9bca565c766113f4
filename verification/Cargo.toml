[package]
name = "edgebot"
version = "0.1.0"
edition = "2021"
publish = false

[dependencies]
anyhow = "1"
base64 = "0.21"
clap = { version = "4", features = ["derive"] }
ed25519-dalek = "2"
ndarray = "0.15"
serde = { version = "1", features = ["derive"] }
serde_json = "1"
ssh2 = "0.9"
thiserror = "1"
time = { version = "0.3", features = ["formatting", "parsing"] }
