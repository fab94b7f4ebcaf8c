[package]
name = "xoxo"
version = "0.1.0"
edition = "2021"
publish = false

[dependencies]
rand = "0.8"
serde = { version = "1", features = ["derive"] }
bitcode = { version = "0.6", features = ["serde"] }
clap = { version = "4", features = ["derive"] }
csv = "1"
chrono = { version = "0.4", features = ["serde"] }
enum-iterator = "1"
log = "0.4"
simple_logger = "4"
anyhow = "1"
serde_json = "1"
