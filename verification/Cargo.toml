[package]
name = "block_reader"
version = "0.1.0"
edition = "2021"
publish = false

[dependencies]
futures = "0.3"
opendal = { version = "0.27", default-features = false }
serde = { version = "1", features = ["derive"] }
thiserror = "1"
tonic = { version = "0.8", default-features = false }
