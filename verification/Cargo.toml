[package]
name = "navplayer"
version = "0.1.0"
edition = "2021"
publish = false

[dependencies]
anyhow = "=1.0.104"
dirs = "=7.0.0"
eframe = { version = "=0.37.0", default-features = false, features = ["glow", "x11", "default_fonts"] }
egui = "=0.37.0"
egui_glow = "=0.37.0"
libloading = "=0.9.0"
once_cell = "=1.21.4"
rfd = { version = "=0.17.2", default-features = false, features = ["xdg-portal"] }
serde = { version = "=1.0.229", features = ["derive"] }
toml = "=1.1.8"
tracing = "=0.1.44"
tracing-subscriber = { version = "=0.3.23", features = ["env-filter"] }
windows-sys = { version = "=0.61.2", features = ["Win32_Foundation", "Win32_UI_WindowsAndMessaging"] }
