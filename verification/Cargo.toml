[package]
name = "blit_server"
version = "0.1.0"
edition = "2021"
publish = false

[dependencies]
rustc-hash = "=2.1.3"
getrandom = "=0.3.4"
rquickjs = "=0.14.0"
redb = "=2.6.4"
tokio = { version = "=1.54.1", features = ["full"] }
opus = "=0.4.0"
libc = "=0.2.191"
