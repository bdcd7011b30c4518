[package]
name = "focus_window"
version = "0.1.0"
edition = "2021"
publish = false

[dependencies]
fuzzy-matcher = "=0.3.7"
egui = "=0.22.0"
egui_glow = { version = "=0.22.0", features = ["winit"] }
glow = "=0.12.3"
glutin = "=0.30.10"
glutin-winit = "=0.3.0"
winit = "=0.28.7"
windows = { version = "=0.44.0", features = ["Win32_Foundation", "Win32_System_ProcessStatus", "Win32_System_Threading", "Win32_UI_WindowsAndMessaging"] }
