[package]
name = "flywheelmc_wasm"
version = "0.1.0"
edition = "2021"
publish = false

[dependencies]
bimap = "0.6"
rand = "0.9"
tokio = { version = "1", default-features = false, features = ["sync"] }
wasmtime = { version = "30.0.0", default-features = false, features = ["async", "cranelift", "runtime", "std", "wat"] }
