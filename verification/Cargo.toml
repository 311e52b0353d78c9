[package]
name = "safe_blob"
version = "0.1.0"
edition = "2021"
publish = false

[dependencies]
bincode = "=1.3.3"
bytes = "=1.12.1"
futures = "=0.3.34"
rmp = "=0.8.10"
self_encryption = "=0.27.5"
serde = { version = "=1.0.229", features = ["derive"] }
sn_data_types = "=0.18.4"
sn_messaging = "=26.0.0"
xor_name = "=1.3.0"

[dev-dependencies]
rand = "=0.8.8"
