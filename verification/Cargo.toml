[package]
name = "ajemi"
version = "0.1.0"
edition = "2021"
publish = false

[dependencies]
csscolorparser = "=0.6.2"
serde = { version = "=1.0.229", features = ["derive"] }
toml = "=0.8.23"
strum = { version = "=0.26.3", features = ["derive"] }
chrono = "=0.4.45"
fern = "=0.6.2"
log = "=0.4.35"
parking_lot = "=0.12.5"
winreg = "0.52"
windows = { version = "0.57", features = ["implement", "Win32_Foundation", "Win32_Graphics_Gdi", "Win32_System_Com", "Win32_System_LibraryLoader", "Win32_System_Ole", "Win32_System_SystemServices", "Win32_System_Variant", "Win32_UI_Input_KeyboardAndMouse", "Win32_UI_TextServices", "Win32_UI_WindowsAndMessaging"] }
