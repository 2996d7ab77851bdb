[package]
name = "mintaka"
version = "0.9.0"
edition = "2021"
publish = false

[dependencies]
serde = { version = "=1.0.229", features = ["derive"] }
serde_json = "=1.0.154"
sha2 = "=0.10.9"
hex = "=0.4.3"
goblin = "=0.8.2"
anyhow = "=1.0.104"
chrono = "=0.4.45"
clap = { version = "=4.6.7", features = ["derive", "env"] }
colored = "=2.2.0"
crossterm = "=0.27.0"
ratatui = "=0.26.3"
dirs = "=5.0.1"
dns-lookup = "=2.1.1"
lazy_static = "=1.5.1"
netstat2 = "=0.11.2"
sysinfo = "=0.30.13"
ureq = { version = "=2.12.1", features = ["json"] }
walkdir = "=2.5.0"
