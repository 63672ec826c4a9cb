[package]
name = "disk_clear_tool"
version = "0.1.0"
edition = "2021"
publish = false

[dependencies]
chrono = "0.4"
serde = { version = "1", features = ["derive"] }
serde_json = "1"
dirs = "5"
glob = "0.3"
walkdir = "2"
tokio = { version = "1", features = ["rt-multi-thread", "time", "sync", "macros"] }
windows = { version = "0.58", features = ["Win32_Foundation", "Win32_Storage_FileSystem", "Win32_UI_Shell"] }
