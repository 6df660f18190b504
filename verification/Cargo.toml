[package]
name = "os-active"
version = "0.1.0"
edition = "2021"
publish = false

[dependencies]
e-log = { version = "=0.4.2", default-features = false, features = ["tracing", "tracing-appender"] }
e-utils = { version = "=0.4.20", features = ["cmd", "fs", "chrono"] }
eframe = { version = "=0.37.0", default-features = false, features = ["glow", "default_fonts", "x11"] }
serde = { version = "=1.0.229", features = ["derive"] }
serde_json = "=1.0.154"
toml = "=1.1.8"
