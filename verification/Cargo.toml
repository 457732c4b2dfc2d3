[package]
name = "riscv_rs"
version = "0.1.0"
edition = "2021"
publish = false

[dependencies]
goblin = "*"
wasm-bindgen = "*"
js-sys = "*"
serde = { version = "1", features = ["derive"] }
serde-wasm-bindgen = "*"
tsify-next = { version = "*", features = ["js"] }
