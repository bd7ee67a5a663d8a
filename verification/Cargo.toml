[package]
name = "aoi_panel"
version = "0.1.0"
edition = "2021"
publish = false

[dependencies]
roxmltree = "*"
chrono = "*"
anyhow = "*"
log = "*"
env_logger = "*"
rust-ini = "*"
tokio = { version = "*", features = ["macros", "rt-multi-thread", "net", "time"] }
tokio-util = { version = "*", features = ["compat"] }
tiberius = "*"
tray-item = "*"
