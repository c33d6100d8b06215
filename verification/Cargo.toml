[package]
name = "gkd"
version = "0.1.0"
edition = "2021"
publish = false

[dependencies]
chrono = "0.4"
rand = "0.6"
websocket = { version = "0.26", default-features = false, features = ["sync"] }
log = "0.4"
log4rs = "1"
