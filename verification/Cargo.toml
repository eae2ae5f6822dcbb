[package]
name = "crile"
version = "0.1.0"
edition = "2021"
publish = false

[dependencies]
hashbrown = "=0.17.1"
serde = { version = "=1.0.229", features = ["derive"] }
toml = "=1.1.8"
glam = { version = "=0.34.2", features = ["serde", "bytemuck"] }
bytemuck = { version = "=1.25.2", features = ["derive"] }
strum = { version = "=0.28.0", features = ["derive"] }
thiserror = "=2.0.21"
pathdiff = "=0.2.3"
dirs = "=7.0.0"
log = "=0.4.35"
env_logger = "=0.11.11"
winit = "=0.30.13"
egui = "=0.29.1"
copypasta = "0.10"
