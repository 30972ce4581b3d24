[package]
name = "gati"
version = "0.1.0"
edition = "2021"
publish = false

[dependencies]
anyhow = "1"
base64 = "0.22"
clap = { version = "4", features = ["derive"] }
cli-clipboard = "0.4"
crossterm = "0.28"
git2 = { version = "0.20", default-features = false }
ignore = "0.4"
notify-debouncer-mini = "0.5"
open = "5"
ratatui = "0.29"
syntect = { version = "5", default-features = false, features = ["default-fancy"] }

[dev-dependencies]
tempfile = "3"
