[package]
name = "forwarder"
version = "0.1.0"
edition = "2021"
publish = false

[dependencies]
astarte-device-sdk = "0.7"
displaydoc = "0.2"
log = "0.4"
reqwest = { version = "0.11", default-features = false }
thiserror = "1"
tokio = { version = "1", features = ["rt", "rt-multi-thread"] }
