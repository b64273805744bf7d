[package]
name = "goose-cli-tui"
version = "0.1.0"
edition = "2021"
publish = false

[dependencies]
unicode-width = "*"
unicode-segmentation = "*"
pulldown-cmark = "*"
syntect = { version = "*", default-features = false, features = ["default-fancy"] }
serde = { version = "*", features = ["derive"] }
serde_json = "*"
ratatui = "*"
crossterm = "*"
streamdown-parser = "*"
streamdown-render = "*"
tokio = { version = "*", features = ["rt-multi-thread", "sync", "macros", "process", "io-util"] }
tokio-util = "*"
console = "*"
anyhow = "*"
