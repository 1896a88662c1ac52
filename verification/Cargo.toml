[package]
name = "desklings"
version = "0.1.0"
edition = "2021"
publish = false

[dependencies]
fastrand = "=2.5.0"
png = "=0.18.1"
serde = { version = "=1.0.229", features = ["derive"] }
toml = "=0.9.8"
thiserror = "=2.0.21"
tracing = "=0.1.44"
tracing-subscriber = { version = "=0.3.23", default-features = false, features = ["env-filter", "fmt", "std"] }
arc-swap = "=1.9.3"
notify = { version = "=8.2.1", default-features = false }
mouse_position = "=0.1.4"
mouce = "=0.3.0"
tauri = { version = "=2.12.5", default-features = false }
objc2 = "=0.6.5"
objc2-app-kit = { version = "=0.3.2", default-features = false }
objc2-core-graphics = { version = "=0.3.2", default-features = false }
