[package]
name = "affix"
version = "0.2.0"
edition = "2021"
publish = false

[dependencies]
aho-corasick = "=1.1.5"
libc = "=0.2.191"
rusqlite = { version = "=0.41.1", features = ["bundled"] }
tracing = "=0.1.44"
tracing-etw = "*"
tracing-subscriber = { version = "=0.3.23", features = ["env-filter"] }
win_etw_provider = "*"
win_etw_tracing = "*"
windows = { version = "=0.62.2", features = ["Win32_Foundation", "Win32_Security", "Win32_Storage_FileSystem", "Win32_System_Diagnostics_Etw", "Win32_System_Diagnostics_ToolHelp", "Win32_System_JobObjects", "Win32_System_Memory", "Win32_System_Power", "Win32_System_Services", "Win32_System_SystemInformation", "Win32_System_Threading", "Win32_System_Time", "Win32_UI_WindowsAndMessaging"] }
windows-sys = { version = "=0.61.2", features = ["Win32_Foundation", "Win32_System_Performance"] }
winreg = "=0.56.0"
zbus = "=5.19.0"
