[package]
name = "kdb_codec"
version = "0.1.0"
edition = "2021"
publish = false

[dependencies]
sha1_smol = "1"
tokio = { version = "1", features = ["full"] }
tokio-util = { version = "0.7", features = ["codec"] }
bytes = "1"
futures = "0.3"
once_cell = "1"
chrono = "0.4"
