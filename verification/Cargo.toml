[package]
name = "ngn"
version = "0.1.0"
edition = "2021"
publish = false

[dependencies]
handy = "*"
libc = "0.2"
log = "0.4"
macaddr = "1"
parking_lot = "0.12"
ring = "0.17"
tokio = { version = "1", features = ["io-util", "macros", "net", "rt-multi-thread", "sync", "time"] }

[dev-dependencies]
bincode = { version = "2", default-features = false, features = ["std"] }
