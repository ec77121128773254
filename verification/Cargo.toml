[package]
name = "aeon"
version = "0.1.24"
edition = "2021"
publish = false

[dependencies]
chrono = { version = "=0.4.45", features = ["serde"] }
serde = { version = "=1.0.229", features = ["derive"] }
serde_json = "=1.0.154"
clap = { version = "=4.6.7", features = ["derive"] }
clap_complete = "=4.6.11"
tokio = { version = "=1.54.1", features = ["full"] }
sysinfo = "=0.33.1"
notify-rust = "=4.18.2"
nvml-wrapper = "=0.10.0"
parking_lot = "=0.12.5"
rayon = "=1.12.0"
reqwest = { version = "=0.12.28", default-features = false, features = ["json"] }
tar = "=0.4.46"
flate2 = "=1.1.10"
walkdir = "=2.5.0"
local-ip-address = "=0.6.13"
netstat2 = "=0.11.2"
axum = "=0.7.9"
tower-http = { version = "=0.6.11", features = ["cors"] }
mimalloc = "=0.1.52"
