[package]
name = "irisia_core"
version = "0.1.0"
edition = "2021"
publish = false

[dependencies]
take_mut = "0.2"
anyhow = "1"
syn = { version = "2", features = ["full"] }
quote = "1"
proc-macro2 = "1"
winit = { version = "0.28", default-features = false, features = ["x11"] }
