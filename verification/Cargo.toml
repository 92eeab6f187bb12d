[package]
name = "codebuddy"
version = "0.1.0"
edition = "2021"
publish = false

[dependencies]
anyhow = "1"
arboard = { version = "3", default-features = false }
base64 = "0.22"
clap = { version = "4", features = ["derive", "env"] }
pulldown-cmark = { version = "0.13", default-features = false }
ratatui = { version = "0.30", features = ["unstable-rendered-line-info"] }
serde = { version = "1", features = ["derive"] }
serde_json = "1"
syntect = { version = "5", default-features = false, features = ["default-fancy"] }
tokenizers = { version = "0.22", default-features = false, features = ["fancy-regex"] }
two-face = { version = "0.5", default-features = false, features = ["syntect-default-fancy"] }
