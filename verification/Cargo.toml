[package]
name = "canoe_storage"
version = "0.1.0"
edition = "2021"
publish = false

[dependencies]
am-fs-ext4 = "=0.7.2"
base64 = "=0.22.1"
fastboot-protocol = "=0.4.0"
fatfs = "=0.3.6"
futures-lite = "=2.6.1"
futures-timer = "=3.0.4"
js-sys = "=0.3.107"
nusb = "=0.2.9"
serde = { version = "=1.0.229", features = ["derive"] }
serde-wasm-bindgen = "=0.6.5"
serde_json = "=1.0.154"
sha2 = "0.10"
thiserror = "=2.0.21"
wasm-bindgen = "=0.2.130"
wasm-bindgen-futures = "=0.4.80"
web-sys = "=0.3.107"
