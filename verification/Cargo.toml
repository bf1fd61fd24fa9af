[package]
name = "nbot"
version = "0.1.0"
edition = "2021"
publish = false

[dependencies]
bollard = "*"
clap = "*"
futures-util = "*"
serde = { version = "*", features = ["derive"] }
serde_json = "*"
tabled = "*"
tar = "*"
tokio = { version = "*", features = ["macros", "rt", "time"] }
