[package]
name = "miniredis"
version = "0.1.0"
edition = "2021"
publish = false

[dependencies]
rand = "=0.10.3"
tokio = { version = "=1.54.1", features = ["sync", "rt-multi-thread", "macros", "net", "io-util", "time", "fs"] }
