[package]
name = "lan_mesh"
version = "0.1.0"
edition = "2021"
publish = false

[dependencies]
sha2 = "*"
hmac = "*"
hex = "*"
chrono = "*"
tokio = { version = "*", features = ["rt-multi-thread", "macros", "net", "time", "io-util", "sync", "fs"] }
hostname = "*"
reqwest = { version = "*", default-features = false }
