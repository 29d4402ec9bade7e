[package]
name = "steward"
version = "0.1.0"
edition = "2021"
publish = false

[dependencies]
nucleo = "=0.5.0"
pinyin = "=0.11.0"
regex = "=1.13.1"
tyme4rs = "=1.5.0"
global-hotkey = "=0.9.0"
serde = { version = "=1.0.229", features = ["derive"] }
serde_json = "=1.0.154"
anyhow = "=1.0.104"
crossbeam-channel = "=0.5.17"
dirs = "=7.0.0"
arboard = { version = "=3.7.0", default-features = false }
rusqlite = { version = "=0.41.1", features = ["bundled"] }
image = { version = "=0.25.10", default-features = false, features = ["png"] }
i18n-embed = { version = "=0.16.0", features = ["fluent-system", "desktop-requester"] }
unic-langid = "=0.9.6"
windows-sys = { version = "=0.61.2", features = ["Win32_Foundation", "Win32_Graphics_Gdi", "Win32_Storage_FileSystem", "Win32_System_Registry", "Win32_UI_Shell", "Win32_UI_WindowsAndMessaging"] }
