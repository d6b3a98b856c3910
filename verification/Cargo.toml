[package]
name = "release_sync"
version = "0.1.0"
edition = "2021"
publish = false

[dependencies]
postgres = { version = "0.19.12", features = ["with-time-0_3"] }
reqwest = { version = "0.12.24", features = ["blocking"] }
serde_json = "1"
time = "0.3"
