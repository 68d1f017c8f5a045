[package]
name = "ssteq25_discover"
version = "0.1.0"
edition = "2021"
publish = false

[dependencies]
serde = { version = "1", features = ["derive"] }
serde_json = "1"
ipnetwork = "0.20"
if-addrs = "0.13"
mdns-sd = "0.13"
log = "0.4"
tokio = { version = "1", features = ["net", "time", "rt", "sync", "macros"] }
reqwest = { version = "0.12", default-features = false, features = ["json"] }
