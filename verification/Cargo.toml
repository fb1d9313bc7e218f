[package]
name = "clipd"
version = "0.1.0"
edition = "2021"
publish = false

[dependencies]
anyhow = "1"
dirs = "*"
log = "0.4"
serde = { version = "1", features = ["derive"] }
simple_logger = "*"
structopt = "0.3"
tokio = { version = "1", features = ["io-util", "macros", "net", "rt-multi-thread"] }
toml = "*"
