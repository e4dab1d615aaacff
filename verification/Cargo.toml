[package]
name = "esh"
version = "0.1.0"
edition = "2021"
publish = false

[dependencies]
thiserror = "1"
clap = "4"
websocket = { version = "0.27", default-features = false, features = ["sync"] }
