[package]
name = "mktoc"
version = "0.1.0"
edition = "2021"
publish = false

[dependencies]
serde_json = "=1.0.151"
clap = { version = "=4.6.7", features = ["derive", "env"] }
wasm-bindgen = "=0.2.129"
