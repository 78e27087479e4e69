[package]
name = "hedwig"
version = "0.1.0"
edition = "2021"
publish = false

[dependencies]
zeroize = "1"
windows-sys = { version = "0.59", features = ["Win32_Foundation", "Win32_Networking_WinSock", "Win32_NetworkManagement_IpHelper", "Win32_Security", "Win32_System_Threading", "Win32_System_Registry", "Win32_System_SystemInformation"] }
