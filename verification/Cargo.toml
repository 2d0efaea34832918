[package]
name = "schema_rs"
version = "0.1.0"
edition = "2021"
publish = false

[dependencies]
regex = "1"
serde_json = "1"
serde = { version = "1", features = ["derive"] }
indexmap = "2"
egui = "0.37.0"
egui_extras = { version = "0.37.0", default-features = false }
eframe = { version = "0.37.0", default-features = false, features = ["glow", "x11", "default_fonts"] }
rfd = "0.17.2"
windows-sys = { version = "0.59", features = ["Win32_Foundation", "Win32_Graphics_Gdi", "Win32_UI_WindowsAndMessaging", "Win32_UI_Controls", "Win32_UI_Shell", "Win32_System_Console", "Win32_System_LibraryLoader", "Win32_System_Com", "Win32_UI_Input_KeyboardAndMouse"] }
