[package]
name = "dfns_cggmp21_blueprint"
version = "0.1.0"
edition = "2021"
publish = false

[dependencies]
cggmp21 = { version = "=0.6.3", features = ["curve-secp256k1"] }
round-based = { version = "=0.4.1", features = ["runtime-tokio"] }
k256 = { version = "=0.13.4", features = ["ecdsa", "sha256"] }
hex = "=0.4.3"
rand = "=0.8.8"
futures = "=0.3.34"
tokio = { version = "=1.54.1", features = ["rt-multi-thread", "macros", "time"] }
serde = { version = "=1.0.229", features = ["derive"] }
serde_json = "=1.0.154"
color-eyre = "=0.6.5"
