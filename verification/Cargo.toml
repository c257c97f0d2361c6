[package]
name = "workshop_downloader"
version = "0.1.0"
edition = "2021"
publish = false

[dependencies]
chrono = "0.4"
clap = { version = "*", features = ["derive"] }
console = "*"
dialoguer = "*"
futures = "0.3"
indicatif = "*"
prettytable-rs = "*"
regex = "1"
reqwest = { version = "0.11", features = ["blocking", "json", "stream"] }
serde = { version = "1", features = ["derive"] }
serde_json = "1"
steam-workshop-api = "*"
tinyfiledialogs = "*"
tokio = { version = "1", features = ["rt-multi-thread"] }
webbrowser = "*"
