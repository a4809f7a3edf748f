[package]
name = "liftplan"
version = "0.1.0"
edition = "2021"
publish = false

[dependencies]
askama = "*"
log = "0.4"
pretty_env_logger = "*"
serde = { version = "1", features = ["derive"] }
structopt = "0.3"
toml = "*"
