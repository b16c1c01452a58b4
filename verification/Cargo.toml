[package]
name = "picocap"
version = "1.4.0"
edition = "2021"
publish = false

[dependencies]
pcap-parser = "*"
sha2 = "*"
axum = { version = "*", features = ["multipart"] }
tokio = { version = "*", features = ["rt-multi-thread", "net", "macros"] }
