[package]
name = "joat"
version = "0.1.0"
edition = "2021"
publish = false

[dependencies]
tera = "1"
serde = { version = "1", features = ["derive"] }
serde_json = "1"
yaml-rust = "0.4"
clap = { version = "2", features = ["yaml"] }
reqwest = { version = "0.12", default-features = false, features = ["blocking", "json", "rustls-tls"] }
oauth2 = { version = "4", default-features = false }
url = "2"
dirs = "*"
terminal_size = "*"
