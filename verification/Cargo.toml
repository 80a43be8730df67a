[package]
name = "d2fps"
version = "0.1.0"
edition = "2021"
publish = false

[dependencies]
gcd = "2"
xxhash-rust = { version = "0.8", features = ["xxh3"] }
windows-sys = { version = "0.52", features = ["Win32_Foundation", "Win32_System_Memory", "Win32_Graphics_Gdi", "Win32_System_LibraryLoader", "Win32_System_Performance", "Win32_System_SystemServices", "Win32_Devices_Display", "Win32_Storage_FileSystem", "Win32_System_ProcessStatus", "Win32_System_Threading", "Win32_UI_WindowsAndMessaging", "Win32_UI_Shell", "Win32_Media", "Win32_System_SystemInformation"] }
rand = "0.8"
rand_xoshiro = "0.6"
fxhash = "0.2"
parking_lot = "0.12"
atomic_float = "0.1"
crossbeam-channel = "0.5"
once_cell = "1"
