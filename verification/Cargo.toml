[package]
name = "bubbler-core"
version = "0.1.0"
edition = "2021"
publish = false

[dependencies]
kdl = "6"
rustix = { version = "1", features = ["event", "fs", "net", "pipe", "process"] }
signal-hook = "0.3"
thiserror = "2"
