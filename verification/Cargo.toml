[package]
name = "rwiki"
version = "0.1.0"
edition = "2021"
publish = false

[dependencies]
html2text = "*"
anyhow = "*"
crossterm = "*"
dirs = "*"
image = { version = "*", default-features = false, features = ["png", "jpeg"] }
ratatui = "*"
ratatui-image = "*"
reqwest = { version = "*", default-features = false, features = ["json"] }
serde_json = "*"
textwrap = "*"
tokio = { version = "*", default-features = false, features = ["macros", "rt-multi-thread", "sync", "time"] }
