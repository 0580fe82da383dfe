[package]
name = "blazingjj"
version = "0.1.0"
edition = "2021"
publish = false

[dependencies]
minijinja = "=2.24.0"
version-compare = "=0.2.1"
anyhow = "=1.0.104"
serde = { version = "=1.0.229", features = ["derive"] }
toml = "=1.1.8"
clap = { version = "=4.6.7", features = ["derive", "env"] }
tempfile = "=3.27.0"
tracing = "=0.1.44"
tracing-subscriber = "=0.3.23"
tracing-chrome = "=0.7.2"
ratatui = "=0.30.2"
# Named only to switch on `osc52`, which `ratatui::crossterm`'s
# `CopyToClipboard` (copying a change or commit ID) needs.
crossterm = { version = "=0.29.0", features = ["osc52"] }
ansi-to-tui = "=8.0.1"
ratatui-textarea = "=0.9.4"
