[package]
name = "matsux_term"
version = "0.1.0"
edition = "2021"
publish = false

[dependencies]
anyhow = "1"
eframe = { version = "*", default-features = false, features = ["glow", "x11", "default_fonts"] }
serde = { version = "1", features = ["derive"] }
serde_json = "1"
tokio = { version = "1", features = ["rt-multi-thread", "sync", "process", "io-util", "macros", "time"] }
toml = "*"
tracing-subscriber = { version = "0.3", features = ["env-filter"] }
