[package]
name = "beckon"
version = "0.2.0"
edition = "2021"
publish = false

[dependencies]
anyhow = "1"
clap = { version = "4", features = ["derive"] }
global-hotkey = "*"
hidapi = { version = "2", default-features = false, features = ["linux-native-basic-udev"] }
serde = { version = "1", features = ["derive"] }
serde_json = "1"
tao = "*"
tokio = { version = "1", features = ["io-util", "macros", "process", "rt", "sync", "time"] }
toml = "*"
