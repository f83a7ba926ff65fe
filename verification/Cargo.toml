[package]
name = "rust_blob"
version = "0.1.0"
edition = "2021"
publish = false

[dependencies]
rustc-serialize = "*"
docopt = "*"
toml = "*"
serde = { version = "*", features = ["derive"] }
log = "*"
env_logger = "*"
nalgebra = "*"
tau = "*"
cairo = "*"
