[package]
name = "hiero_pack"
version = "0.1.0"
edition = "2021"
publish = false

[dependencies]
png = "0.16"
bincode = "1.3"
serde = { version = "1", features = ["derive"] }
clap = "2"
