[package]
name = "wrap"
version = "0.1.0"
edition = "2021"
publish = false

[dependencies]
anyhow = "1"
clap = { version = "4", features = ["derive"] }
dirs = "6"
hostname = "0.4"
microsandbox = { version = "0.7", default-features = false }
serde = { version = "1", features = ["derive"] }
serde_yaml = "0.9"
sha2 = "0.10"
tokio = { version = "1", default-features = false, features = ["rt-multi-thread", "macros", "signal", "time", "process"] }
