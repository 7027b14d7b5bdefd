[package]
name = "scr_launcher"
version = "0.1.0"
edition = "2021"
publish = false

[dependencies]
chrono = "=0.4.45"
iced = { version = "=0.13.1", default-features = false, features = ["tiny-skia", "svg", "tokio"] }
serde = { version = "=1.0.229", features = ["derive"] }
tokio = { version = "=1.54.1", features = ["fs", "io-util"] }
toml = "=0.8.23"
windows = { version = "=0.52.0", features = ["Wdk_Foundation", "Wdk_System_SystemInformation", "Wdk_System_Threading", "Win32_Foundation", "Win32_Security", "Win32_System_Com", "Win32_System_Threading", "Win32_UI_Shell", "Win32_UI_Shell_Common"] }
