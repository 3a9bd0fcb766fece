[package]
name = "togglite"
version = "0.1.0"
edition = "2021"
publish = false

[dependencies]
serde = { version = "=1.0.229", features = ["derive"] }
serde_json = "=1.0.154"
ureq = { version = "=2.12.1", default-features = false, features = ["json", "native-tls"] }
native-tls = "=0.2.18"
winapi = { version = "=0.3.9", features = ["dpapi", "winbase", "wincrypt", "winnls", "winuser", "dwmapi", "libloaderapi", "shellapi", "wingdi", "winreg", "errhandlingapi", "synchapi", "winerror", "minwindef", "windef", "timezoneapi"] }
native-windows-gui = "=1.0.13"
