[package]
name = "ccloader_installer"
version = "0.1.0"
edition = "2021"
publish = false

[dependencies]
curl = "0.4"
serde_json = "1"
flate2 = "1"
tar = "0.4"
dirs = "*"
log = "0.4"
