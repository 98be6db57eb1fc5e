[package]
name = "castrelay"
version = "0.1.0"
edition = "2021"
publish = false

[dependencies]
url = "=2.5.8"
tokio = { version = "=1.53.2", features = ["rt-multi-thread", "macros", "time"] }
warp = { version = "=0.4.3", features = ["server"] }
reqwest = { version = "=0.13.5", default-features = false }
local-ip-address = "=0.6.13"
mdns-sd = "=0.21.5"
rust_cast = "=0.21.0"

[dev-dependencies]
urlencoding = "=2.1.3"
