[package]
name = "esp32_s3_rhai"
version = "0.1.0"
edition = "2021"
publish = false

[dependencies]
heapless = "0.8"
embassy-sync = "0.6"
critical-section = { version = "1", features = ["std"] }
log = "0.4"
rhai = "1"
anyhow = "1"
