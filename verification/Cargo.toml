[package]
name = "netproto"
version = "0.1.0"
edition = "2021"
publish = false

[dependencies]
tokio = { version = "1", features = ["net", "rt-multi-thread", "macros", "time"] }

[dev-dependencies]
bincode = "1.3"
