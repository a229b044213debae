[package]
name = "tile_wm"
version = "0.1.0"
edition = "2021"
publish = false

[dependencies]
serde = { version = "1", features = ["derive"] }
serde_json = "1"
toml = "0.8"
log = "0.4"
open = "5"
winvd = "0.0.49"
windows = { version = "0.58", features = ["Win32_Foundation", "Win32_UI_WindowsAndMessaging", "Win32_Graphics_Dwm", "Win32_Graphics_Gdi", "Win32_System_Threading", "Win32_System_Registry", "Win32_UI_Shell", "Win32_UI_Input_KeyboardAndMouse", "Win32_Storage_FileSystem"] }
