[package]
name = "tiktoken_interop"
version = "0.1.0"
edition = "2021"
publish = false

[dependencies]
rustc-hash = "1.1.0"
pyo3 = { version = "0.22.2", default-features = false, features = ["extension-module", "macros"] }
numpy = "0.22"
