[package]
name = "relay_control"
version = "0.1.0"
edition = "2021"
publish = false

[dependencies]
chrono = "0.4"
chrono-tz = "*"
postcard = { version = "1", features = ["alloc"] }
serde = { version = "1", features = ["derive"] }
crossbeam = "0.8"
log = "0.4"
toml-cfg = "*"
esp-idf-svc = "*"
esp-idf-hal = "*"
