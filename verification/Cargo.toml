[package]
name = "watcher"
version = "0.1.0"
edition = "2021"
publish = false

[dependencies]
glob = "0.3"
parking_lot = "*"

[dev-dependencies]
tempfile = "*"
fs-err = "*"
