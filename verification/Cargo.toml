[package]
name = "nostr_double_ratchet"
version = "0.1.0"
edition = "2021"
publish = false

[dependencies]
base64 = "=0.22.1"
hex = "=0.4.3"
nostr = { version = "=0.44.8", default-features = false, features = ["std", "nip44"] }
rand = "=0.8.8"
serde = { version = "=1.0.229", features = ["derive"] }
serde_json = { version = "=1.0.154", features = ["raw_value"] }
sha2 = "=0.10.9"
thiserror = "=1.0.69"
urlencoding = "=2.1.3"
uuid = { version = "=1.29.0", features = ["v4"] }
