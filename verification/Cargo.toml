[package]
name = "roc_core"
version = "0.1.0"
edition = "2021"
publish = false

[dependencies]
bumpalo = { version = "=3.20.3", features = ["collections"] }
inkwell = { version = "=0.5.0", features = ["llvm14-0-force-dynamic"] }
