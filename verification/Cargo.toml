[package]
name = "gpa_rs"
version = "0.1.0"
edition = "2021"
publish = false

[dependencies]
anyhow = "=1.0.104"
clap = { version = "=4.6.7", features = ["derive"] }
cliclack = "=0.3.8"
colored = "=2.2.0"
ctrlc = "=3.5.2"
dirs = "=5.0.1"
once_cell = "=1.21.4"
ratatui = { version = "=0.29.0", features = ["widget-calendar"] }
serde = { version = "=1.0.229", features = ["derive"] }
serde_json = "=1.0.154"
time = { version = "=0.3.55", features = ["serde", "macros"] }
tui-textarea = "=0.7.0"
uuid = { version = "=1.29.1", features = ["v4", "serde"] }
