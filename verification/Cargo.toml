[package]
name = "allthethings"
version = "0.7.0"
edition = "2021"
publish = false

[dependencies]
base64 = "0.22"
bincode = "1.3"
chrono = "0.4"
parking_lot = "0.12"
png = "0.17"
rayon = "1.10"
regex = "1"
serde = { version = "1", features = ["derive"] }
serde_json = "1"
thiserror = "1"
windows-service = "0.7"
windows-sys = { version = "0.59", features = ["Win32_Foundation", "Win32_Graphics_Gdi", "Win32_Security", "Win32_Security_Authorization", "Win32_Storage_FileSystem", "Win32_System_IO", "Win32_System_Ioctl", "Win32_System_Pipes", "Win32_System_Registry", "Win32_System_Threading", "Win32_UI_Shell", "Win32_UI_WindowsAndMessaging"] }
