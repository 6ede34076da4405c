[package]
name = "someip"
version = "0.1.0"
edition = "2021"
publish = false

[dependencies]
someip_parse = "=0.4.0"
rand = "=0.8.8"
tokio = { version = "=1.54.1", features = ["full"] }
tokio-util = { version = "=0.7.20", features = ["codec", "net", "time"] }
futures = "=0.3.34"
bytes = "=1.12.1"
serde = { version = "=1.0.229", features = ["derive"] }
bincode = "=1.3.3"
log = "=0.4.35"
async-trait = "=0.1.92"
