[package]
name = "verify_snapshot"
version = "0.1.0"
edition = "2021"
publish = false

[dependencies]
anyhow = "1.0"
base64 = "0.21"
clap = { version = "4.2", features = ["derive"] }
ed25519-dalek = { version = "1.0", features = ["std"] }
serde = { version = "1.0", features = ["derive"] }
serde_json = "1.0"
