[package]
name = "devices_manager"
version = "0.1.0"
edition = "2021"
publish = false

[dependencies]
aes-gcm = "*"
argon2 = "*"
flutter_rust_bridge = "2"
hex = "0.4"
jni = "0.21"
quinn = "0.11"
rand = "*"
rcgen = "0.14"
rustls = { version = "0.23", default-features = false, features = ["ring", "std", "tls12"] }
serde = { version = "1", features = ["derive"] }
serde_json = "1"
sha2 = "*"
tokio = { version = "1", features = ["full"] }
tokio-util = "0.7"
whoami = "*"
