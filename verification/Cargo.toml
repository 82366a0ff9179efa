[package]
name = "client_assertion"
version = "0.1.0"
edition = "2021"
publish = false

[dependencies]
base64 = "=0.23.1"
jwt = { version = "=0.16.0", features = ["openssl"] }
openssl = "=0.10.81"
uuid = { version = "=1.27.0", features = ["v4"] }
reqwest = { version = "=0.13.5", default-features = false, features = ["form"] }

[dev-dependencies]
serde_json = "=1.0.151"
