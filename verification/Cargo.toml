[package]
name = "ssclip"
version = "0.1.0"
edition = "2021"
publish = false

[dependencies]
arboard = "=3.7.0"
confy = "=0.5.1"
crossbeam-channel = "=0.5.17"
glob = "=0.3.4"
image = "=0.24.9"
notify = "=6.1.1"
open = "=5.4.5"
serde = { version = "=1.0.229", features = ["derive"] }
thiserror = "=1.0.69"
trayicon = "=0.4.1"
windows = { version = "=0.48.0", features = ["Win32_Foundation", "Win32_UI_WindowsAndMessaging"] }
winreg = "=0.50.0"
