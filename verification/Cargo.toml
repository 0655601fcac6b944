[package]
name = "log_parser"
version = "0.1.0"
edition = "2021"
publish = false

[dependencies]
clap = "=2.34.0"
dashmap = "=4.0.2"
env_logger = "=0.8.4"
log = "=0.4.34"
rand = "=0.7.3"
serde_json = { version = "=1.0.154", features = ["raw_value"] }
uuid = { version = "=0.8.2", features = ["v4"] }
