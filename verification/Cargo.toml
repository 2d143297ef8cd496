[package]
name = "forge"
version = "0.1.0"
edition = "2021"
publish = false

[dependencies]
vt100 = "*"
clap = { version = "*", features = ["derive"] }
crossterm = "*"
ratatui = "*"
tui-term = "*"
libc = "*"
nix = { version = "*", features = ["term"] }
serde = { version = "*", features = ["derive"] }
serde_json = "*"
toml = "*"
thiserror = "*"
chrono = "*"
tokio = { version = "*", features = ["rt-multi-thread", "time", "macros"] }
