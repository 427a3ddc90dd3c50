[package]
name = "matter_commissioning"
version = "0.2.0"
edition = "2021"
publish = false

[dependencies]
ring = "0.17"
x509-parser = "*"
rustls-webpki = { version = "0.103", features = ["ring", "std"] }
rustls-pki-types = { version = "1", features = ["std"] }
tokio = { version = "1", features = ["net", "time", "sync", "macros", "rt"] }

[dev-dependencies]
p256 = { version = "0.13", features = ["ecdsa"] }
