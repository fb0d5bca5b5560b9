[package]
name = "goes_abi"
version = "0.1.0"
edition = "2021"
publish = false

[dependencies]
chrono = { version = "0.4", features = ["serde"] }
csv = "1"
image = { version = "0.25", default-features = false, features = ["png"] }
rustls = { version = "0.23", default-features = false, features = ["std"] }
rustls-rustcrypto = "0.0.2-alpha"
rustyhdf5 = "*"
serde = { version = "1", features = ["derive"] }
serde_json = "1"
ureq = "3"
