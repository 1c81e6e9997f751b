[package]
name = "lcu"
version = "0.1.0"
edition = "2021"
publish = false

[dependencies]
anyhow = "1"
base64 = "0.13"
reqwest = { version = "0.11", default-features = false, features = ["json", "rustls-tls"] }
serde = { version = "1", features = ["derive"] }
serde_json = "1"
sysinfo = "0.29"
thiserror = "1"
tokio = { version = "1", features = ["macros", "rt-multi-thread"] }
unicode-normalization = "0.1"
