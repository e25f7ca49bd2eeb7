[package]
name = "eadup"
version = "0.1.0"
edition = "2021"
publish = false

[dependencies]
printpdf = "*"
swash = "*"
serde = { version = "*", features = ["derive"] }
wasm-bindgen = "*"
clap = { version = "*", features = ["derive"] }
