[package]
name = "chocolate"
version = "0.1.0"
edition = "2021"
publish = false

[dependencies]
ink = "4"
parity-scale-codec = { version = "3", features = ["derive"] }
scale-info = { version = "2", features = ["derive"] }

[dev-dependencies]
secp256k1 = { version = "0.27", features = ["recovery"] }
