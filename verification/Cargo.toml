[package]
name = "am"
version = "0.1.0"
edition = "2021"
publish = false

[dependencies]
anyhow = "1"
base64 = "0.22"
clap = { version = "4", features = ["derive"] }
flate2 = "1"
serde = { version = "1", features = ["derive"] }
serde_json = { version = "1", features = ["preserve_order"] }
serde_json_lenient = "0.2"
sha2 = "0.10"
tar = "0.4"
toml = "0.8"
ureq = "2"
which = "7"
