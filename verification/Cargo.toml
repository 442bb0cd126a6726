[package]
name = "floxmeta"
version = "0.1.0"
edition = "2021"
publish = false

[dependencies]
anyhow = "1"
dirs = "5"
log = "0.4"
tempfile = "3"
uuid = { version = "1", features = ["v4"] }
