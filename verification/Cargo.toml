[package]
name = "minuet"
version = "0.1.0"
edition = "2021"
publish = false

[dependencies]
async-trait = "0.1"
chrono = "0.4"
clap = { version = "4", features = ["derive"] }
crossterm = "0.29"
futures-util = "0.3"
pulldown-cmark = "0.13"
rand = "0.9"
ratatui = "0.29"
ratatui-textarea = "*"
reqwest = { version = "0.12", default-features = false, features = ["json", "stream", "rustls-tls"] }
serde = { version = "1", features = ["derive"] }
serde_json = "1"
shlex = "1"
syntect = { version = "5", default-features = false, features = ["default-fancy"] }
thiserror = "2"
tokio = { version = "1", features = ["full"] }
toml = "0.8"
unicode-segmentation = "1"
unicode-width = "0.2"
url = "2"
uuid = { version = "1", features = ["v4"] }
