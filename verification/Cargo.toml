[package]
name = "oculante"
version = "0.1.0"
edition = "2021"
publish = false

[dependencies]
anyhow = "1"
clap = "3"
dirs = "5"
env_logger = "0.10"
image = { version = "0.24", default-features = false, features = ["png", "jpeg"] }
log = "0.4"
nalgebra = "0.32"
notan = { version = "*", features = ["egui"] }
serde = { version = "1", features = ["derive"] }
serde_json = "1"
