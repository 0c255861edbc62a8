[package]
name = "waywallen"
version = "0.1.0"
edition = "2021"
publish = false

[dependencies]
anyhow = "1"
log = "0.4"
serde = { version = "1", features = ["derive"] }
toml = "*"
libc = "0.2"
nix = { version = "*", features = ["fs"] }
tokio = { version = "1", features = ["rt", "time", "sync", "macros"] }
zbus = "*"
futures-util = "0.3"
