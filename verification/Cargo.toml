[package]
name = "clipped"
version = "0.1.0"
edition = "2021"
publish = false

[dependencies]
cargo_metadata = "*"
clap = { version = "4", features = ["derive"] }
dunce = "1"
env_logger = "*"
figment = { version = "0.10", features = ["toml", "env"] }
log = "0.4"
serde = { version = "1", features = ["derive"] }
thiserror = "*"
