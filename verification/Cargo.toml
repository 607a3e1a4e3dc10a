[package]
name = "scrcpy_gui"
version = "0.1.0"
edition = "2021"
publish = false

[dependencies]
flate2 = "1"
reqwest = { version = "0.12", default-features = false, features = ["json"] }
serde = { version = "1", features = ["derive"] }
serde_json = "1"
tar = "0.4"
tokio = { version = "1", default-features = false, features = ["fs", "io-util", "process", "time"] }
zip = { version = "*", default-features = false, features = ["deflate"] }
