[package]
name = "cliper"
version = "0.1.0"
edition = "2021"
publish = false

[dependencies]
ring = "=0.17.14"
zeroize = "=1.9.0"
sha2 = "=0.11.0"
hex = "=0.4.3"
url = "=2.5.8"
urlencoding = "=2.1.3"
image = { version = "=0.25.10", default-features = false, features = ["png"] }
serde = { version = "=1.0.229", features = ["derive"] }
serde_json = "=1.0.151"
parking_lot = "=0.12.5"
arboard = "=3.6.1"
base64 = "=0.23.1"
rusqlite = { version = "=0.40.2", features = ["bundled"] }
