[package]
name = "plugin_inventory"
version = "0.1.0"
edition = "2021"
publish = false

[dependencies]
plist = "*"
serde_json = "*"
walkdir = "*"
dirs = "*"
trash = "*"
winapi = { version = "*", features = ["winver", "minwindef"] }
winreg = "*"
