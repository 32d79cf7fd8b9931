[package]
name = "aomori"
version = "0.1.0"
edition = "2021"
publish = false

[dependencies]
anyhow = "1"
axum = { version = "*", features = ["ws"] }
blake3 = { version = "1", features = ["pure"] }
clap = { version = "4", features = ["derive", "env"] }
ed25519-dalek = "2"
hex = "0.4"
mlua = { version = "*", features = ["lua54", "vendored"] }
serde = { version = "1", features = ["derive"] }
serde_json = "1"
tokio = { version = "1", features = ["full"] }
tower-http = { version = "*", features = ["cors"] }
