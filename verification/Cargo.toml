[package]
name = "live_server"
version = "0.1.0"
edition = "2021"
publish = false

[dependencies]
axum = { version = "0.7", features = ["ws"] }
chrono = "=0.4.45"
clap = { version = "4", features = ["derive"] }
env_logger = "0.11"
futures = "0.3"
local-ip-address = "0.6"
log = "0.4"
mime_guess = "=2.0.4"
notify = "6"
notify-debouncer-full = "0.3"
tokio = { version = "1", features = ["full"] }
