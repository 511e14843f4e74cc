[package]
name = "bitoxide"
version = "0.1.0"
edition = "2021"
publish = false

[dependencies]
async-std = "*"
async-tungstenite = { version = "*", features = ["async-std-runtime"] }
base64 = "*"
clap = { version = "*", features = ["derive"] }
ctrlc = "*"
env_logger = "*"
futures = "*"
gloo-timers = { version = "*", features = ["futures"] }
js-sys = "*"
log = "*"
notify-debouncer-mini = "*"
serde = { version = "*", features = ["derive"] }
serde_json = "*"
wasm-bindgen = "*"
wasm-bindgen-futures = "*"
web-sys = { version = "*", features = ["Window", "Performance"] }
