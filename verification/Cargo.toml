[package]
name = "shell_core"
version = "0.1.0"
edition = "2021"
publish = false

[dependencies]
blake2 = "*"
ed25519-dalek = "*"
serde = { version = "*", features = ["derive"] }
serde_json = "*"
mio = { version = "*", features = ["os-poll", "net"] }
