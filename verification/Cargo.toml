[package]
name = "csv_import"
version = "0.1.0"
edition = "2021"
publish = false

[dependencies]
csv = "1.3"
encoding_rs = "0.8"
serde = { version = "1", features = ["derive"] }
serde_json = "1"
log = "0.4"
env_logger = { version = "0.11", default-features = false }
crossbeam = "0.8"
reqwest = { version = "0.12", default-features = false, features = ["blocking", "json"] }
