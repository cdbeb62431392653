[package]
name = "codex_taskloop"
version = "0.1.0"
edition = "2021"
publish = false

[dependencies]
anyhow = "1"
chrono = "0.4"
fs2 = "0.4"
rand = "0.9"
regex = "1"
rmcp = { version = "*", features = ["server", "transport-io"] }
serde = { version = "1", features = ["derive"] }
serde_json = "1"
tokio = { version = "1", features = ["macros", "rt-multi-thread", "io-std"] }
toml = "*"
