[package]
name = "sbx"
version = "0.1.0"
edition = "2021"
publish = false

[dependencies]
anyhow = "=1.0.104"
azservicebus = "=0.25.1"
base64 = "=0.22.1"
egui = { version = "=0.37.0", default-features = false, features = ["default_fonts"] }
egui_extras = { version = "=0.37.0", default-features = false }
fe2o3-amqp-types = "=0.14.0"
hmac = "=0.12.1"
reqwest = { version = "=0.12.28", default-features = false, features = ["rustls-tls"] }
roxmltree = "=0.21.2"
serde = { version = "=1.0.229", features = ["derive"] }
serde_json = "=1.0.154"
sha2 = "=0.10.9"
tokio = { version = "=1.54.1", features = ["rt"] }
urlencoding = "=2.1.3"
