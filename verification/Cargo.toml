[package]
name = "race_server"
version = "0.1.0"
edition = "2021"
publish = false

[dependencies]
flate2 = "1"
serde = { version = "1", features = ["derive"] }
serde_json = "1"
toml = "0.8"
tokio = { version = "1", features = ["full"] }
anyhow = "1"
log = "0.4"
pretty_env_logger = "0.5"
argh = "0.1"
nalgebra = "0.33"
parry2d = "0.17"
rapier3d = "0.22"
crossterm = "0.26"
better-panic = "*"
