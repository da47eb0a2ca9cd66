[package]
name = "teams_rs"
version = "0.1.0"
edition = "2021"
publish = false

[dependencies]
chrono = "=0.4.45"
urlencoding = "=2.1.3"
serde = { version = "=1.0.229", features = ["derive"] }
serde_json = "=1.0.154"
tracing = "=0.1.44"
tracing-subscriber = { version = "=0.3.23", features = ["env-filter"] }
tokio = { version = "=1.54.1", features = ["full"] }
reqwest = { version = "=0.12.28", default-features = false, features = ["json", "rustls-tls"] }
headless_chrome = { version = "=1.0.22", default-features = false, features = ["offline"] }
iced = { version = "=0.14.0", default-features = false, features = ["tiny-skia", "advanced", "tokio", "x11"] }
