[package]
name = "sandbox_replay"
version = "0.1.0"
edition = "2021"
publish = false

[dependencies]
axum = "=0.8.9"
futures = "=0.3.34"
reqwest = { version = "=0.13.5", default-features = false, features = ["json"] }
rquickjs = { version = "=0.14.0", features = ["futures", "parallel"] }
serde = { version = "=1.0.229", features = ["derive"] }
serde_json = { version = "=1.0.151", features = ["arbitrary_precision"] }
tokio = { version = "=1.53.2", features = ["rt-multi-thread", "macros", "net"] }
