[package]
name = "lan_mouse"
version = "0.1.0"
edition = "2021"
publish = false

[dependencies]
async-trait = "*"
clap = { version = "4", features = ["derive"] }
core-foundation = "0.10"
core-graphics = "0.25"
env_logger = "=0.11.11"
futures = "0.3"
hostname = "=0.4.2"
keycode = "=1.0.0"
local-channel = "=0.1.5"
log = "0.4"
mdns-sd = "=0.21.7"
netdev = "=0.47.0"
rustls = { version = "0.23", default-features = false, features = ["std", "ring"] }
serde = { version = "1", features = ["derive"] }
serde_json = "1"
thiserror = "2"
tokio = { version = "1", features = ["rt", "net", "sync", "time", "macros", "process", "signal"] }
tokio-util = { version = "0.7", features = ["rt"] }
toml = "=1.1.8"
webrtc-dtls = "=0.12.0"
webrtc-util = "=0.11.0"
windows = { version = "0.61", features = ["Win32_Devices_Display", "Win32_Foundation", "Win32_Graphics_Gdi", "Win32_UI_WindowsAndMessaging"] }
