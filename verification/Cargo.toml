[package]
name = "git_pincer"
version = "0.1.0"
edition = "2021"
publish = false

[dependencies]
similar = "2"
unicode-width = "0.2"
anyhow = "1"
clap = { version = "4", features = ["derive"] }
clap_complete = "4"
ratatui = "*"
serde = { version = "1", features = ["derive"] }
toml = "*"
thiserror = "*"
sys-locale = "0.3"
syntect = { version = "5", default-features = false, features = ["default-fancy"] }
