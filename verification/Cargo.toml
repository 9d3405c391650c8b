[package]
name = "ikigai-fs"
version = "0.1.0"
edition = "2021"
publish = false

[dependencies]
async-trait = "=0.1.92"
ikigai-core = "=0.1.9"
web-sys = { version = "=0.3.107", features = ["Storage", "Window"] }

[dev-dependencies]
futures = "=0.3.34"
