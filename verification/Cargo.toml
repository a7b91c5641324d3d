[package]
name = "noise_maker"
version = "0.1.0"
edition = "2021"
publish = false

[dependencies]
rand = "=0.8.8"
windows = { version = "0.60", features = ["Win32_Foundation", "Win32_Media", "Win32_Media_Audio", "Win32_Media_Multimedia", "Win32_System_Console", "Win32_UI_Input_KeyboardAndMouse", "Win32_UI_WindowsAndMessaging"] }
