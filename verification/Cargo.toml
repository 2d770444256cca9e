[package]
name = "window_snap"
version = "0.3.0"
edition = "2021"
publish = false

[dependencies]
serde = { version = "=1.0.229", features = ["derive"] }
toml = "=0.8.23"
dirs = "=5.0.1"
log = "=0.4.35"
env_logger = "=0.11.11"
global-hotkey = "=0.9.0"
tray-icon = "=0.26.1"
winit = "=0.30.13"
windows = { version = "0.58", features = ["Win32_Foundation", "Win32_Graphics_Dwm", "Win32_Graphics_Gdi", "Win32_System_ProcessStatus", "Win32_System_Threading", "Win32_UI_WindowsAndMessaging", "Win32_UI_HiDpi"] }
