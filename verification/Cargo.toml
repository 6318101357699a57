[package]
name = "linux_mod_manager"
version = "0.1.0"
edition = "2021"
publish = false

[dependencies]
base64 = "0.22"
serde = { version = "1", features = ["derive"] }
serde_json = "1"
url = "2"
zip = { version = "2", default-features = false, features = ["deflate"] }
sevenz-rust = "0.6"
reqwest = { version = "0.12", default-features = false, features = ["json", "rustls-tls"] }
tokio = { version = "1", features = ["rt", "time"] }
