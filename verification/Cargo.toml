[package]
name = "steam-tunnel"
version = "0.1.0"
edition = "2021"
publish = false

[dependencies]
blake3 = "=1.8.7"
getrandom = "=0.2.17"
ksni = { version = "=0.3.7", features = ["blocking"] }
notify-rust = "=4.18.2"
open = "=5.4.5"
serde = { version = "=1.0.229", features = ["derive"] }
serde_json = "=1.0.154"
steamworks = { version = "=0.13.1", features = ["raw-bindings"] }
tiny_http = "=0.12.0"
windows-sys = { version = "=0.59.0", features = ["Win32_Foundation", "Win32_NetworkManagement_IpHelper", "Win32_System_Diagnostics_ToolHelp", "Win32_UI_WindowsAndMessaging"] }
