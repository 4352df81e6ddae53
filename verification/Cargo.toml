[package]
name = "ldraw"
version = "0.1.0"
edition = "2021"
publish = false

[dependencies]
async-trait = "0.1"
bincode = "1"
cgmath = { version = "0.18", features = ["serde"] }
clap = "4"
futures = "0.3"
serde = { version = "1", features = ["derive"] }
serde_json = "1"
tokio = { version = "1", features = ["fs", "io-util", "macros", "rt-multi-thread"] }
uuid = { version = "1", features = ["v4", "serde"] }
walkdir = "2"
