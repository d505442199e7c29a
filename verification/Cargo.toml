[package]
name = "setlister"
version = "0.1.0"
edition = "2021"
publish = false

[dependencies]
chrono = "*"
clap = { version = "*", features = ["derive"] }
serde = { version = "*", features = ["derive"] }
reqwest = { version = "*", features = ["json"] }
tokio = { version = "*", features = ["full"] }
rayon = "*"
keyring-core = "*"
dbus-secret-service-keyring-store = "*"
apple-native-keyring-store = "*"
windows-native-keyring-store = "*"
