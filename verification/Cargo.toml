[package]
name = "tier2"
version = "0.1.0"
edition = "2021"
rust-version = "1.95"
publish = false

[dependencies]
libc = "=0.2.191"
rustpython-compiler-core = "=0.5.0"
windows-sys = { version = "=0.61.2", features = ["Win32_Foundation", "Win32_System_Memory"] }
