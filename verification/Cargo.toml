[package]
name = "playpnp"
version = "1.0.0"
edition = "2021"
publish = false

[dependencies]
anyhow = "1"
axum = "0.8"
fs2 = "0.4"
gtk = "0.18"
if-addrs = "0.13"
libappindicator = "0.9"
local-ip-address = "0.6"
reqwest = { version = "0.12", default-features = false }
serde = { version = "1", features = ["derive"] }
socket2 = { version = "0.5", features = ["all"] }
sysinfo = "0.33"
tokio = { version = "1", features = ["full"] }
tracing = "0.1"
tracing-subscriber = { version = "0.3", features = ["env-filter"] }
tray-icon = "0.21"
uuid = { version = "1", features = ["v4"] }
winit = "0.30"
