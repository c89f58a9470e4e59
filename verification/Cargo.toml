[package]
name = "app_lev_orc"
version = "0.1.0"
edition = "2021"
publish = false

[dependencies]
futures = "=0.3.34"
libc = "=0.2.191"
paho-mqtt = { version = "=0.14.0", default-features = false, features = ["bundled"] }
wasmtime = "=36.0.19"
wasmtime-wasi = "=36.0.19"
zip = { version = "=9.1.0", default-features = false, features = ["deflate"] }
