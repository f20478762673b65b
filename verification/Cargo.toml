[package]
name = "zbus"
version = "0.1.0"
edition = "2021"
publish = false

[dependencies]
byteorder = "=1.5.0"
camino = "=1.2.6"
heapless = "=0.8.0"
libc = "=0.2.191"
proc-macro2 = "=1.0.107"
quote = "=1.0.47"
serde = { version = "=1.0.229", features = ["derive"] }
syn = "=2.0.119"

[dev-dependencies]
winnow = "=0.7.15"
