[package]
name = "aas_probe"
version = "0.1.0"
edition = "2021"
publish = false

[dependencies]
hex = "0.4"
base64 = "0.22"
tokio = { version = "1", features = ["rt-multi-thread", "macros", "time"] }
reqwest = { version = "0.12", default-features = false, features = ["rustls-tls"] }
async-channel = "2"
futures = "0.3"
serde_json = "1"

[dev-dependencies]
prost = "0.13"
