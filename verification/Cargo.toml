[package]
name = "hidpp"
version = "0.1.0"
edition = "2021"
publish = false

[dependencies]
serde = { version = "=1.0.229", features = ["derive"] }
thiserror = "=2.0.21"
toml = "=0.8.23"
dirs = "=6.0.0"
hidapi = { version = "=2.6.7", default-features = false, features = ["linux-native-basic-udev"] }
tracing = "=0.1.44"
