[package]
name = "usb_manager"
version = "0.1.0"
edition = "2021"
publish = false

[dependencies]
anyhow = "1"
crossbeam-channel = "0.5"
dashmap = "5"
thiserror = "1"
uuid = "1"
winapi = { version = "0.3", features = ["libloaderapi", "minwindef", "ntdef", "windef", "winuser"] }
windows = { version = "0.39", features = ["Win32_Devices_DeviceAndDriverInstallation", "Win32_Devices_HumanInterfaceDevice", "Win32_Devices_Properties", "Win32_Foundation", "Win32_Security", "Win32_Storage_FileSystem", "Win32_System_IO", "Win32_UI_Shell_PropertiesSystem"] }
