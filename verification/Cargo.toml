[package]
name = "job_upload"
version = "0.1.0"
edition = "2021"
publish = false

[dependencies]
pace26io = "0.2.0"
url = "2"
reqwest = { version = "0.12", default-features = false, features = ["json", "rustls-tls"] }
serde = { version = "1", features = ["derive"] }

[dev-dependencies]
serde_json = "1"
