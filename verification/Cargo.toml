[package]
name = "vbus_gamepad"
version = "0.1.0"
edition = "2021"
publish = false

[dependencies]
tokio = { version = "1", features = ["net", "rt", "rt-multi-thread", "macros", "sync", "time", "io-util"] }
tokio-util = "0.7"
serde = { version = "1", features = ["derive"] }
lazy_static = "1.5"
local-ip-address = "0.6"
winapi = { version = "0.3.9", features = ["winioctl", "handleapi", "winnt", "guiddef", "minwindef", "ntdef", "errhandlingapi", "fileapi", "ioapiset", "minwinbase", "setupapi", "winuser"] }
