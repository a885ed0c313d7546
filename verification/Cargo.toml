[package]
name = "mozdevice"
version = "0.1.0"
edition = "2021"
publish = false

[dependencies]
uuid = { version = "*", features = ["v4"] }
tokio = { version = "*", features = ["net", "io-util", "process", "sync", "time", "rt", "fs"] }
walkdir = "*"
