[package]
name = "snapshot_manager"
version = "0.1.0"
edition = "2021"
publish = false

[dependencies]
rustc-hex = "2"
fs_extra = "1"
