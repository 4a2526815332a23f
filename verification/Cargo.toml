[package]
name = "atomos_core"
version = "0.1.0"
edition = "2021"
publish = false

[dependencies]
httparse = "=1.10.1"
hashbrown = "=0.15.5"
serde = { version = "=1.0.229", features = ["derive"] }
serde_json = "=1.0.154"
libc = "0.2"
