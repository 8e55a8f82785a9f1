[package]
name = "sm_connect"
version = "0.1.0"
edition = "2021"
publish = false

[dependencies]
anyhow = "1"
configparser = "3"
crossterm = "0.27"
home = "0.5"
ratatui = "0.26"
signal-hook = "0.3"
thiserror = "1"
tokio = { version = "1", features = ["macros", "rt-multi-thread"] }
