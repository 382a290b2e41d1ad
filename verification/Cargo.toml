[package]
name = "disk_analyzer"
version = "0.1.0"
edition = "2021"
publish = false

[dependencies]
chrono = "0.4"
crossterm = "0.28"
ratatui = "0.29"
rayon = "1"
rusqlite = { version = "0.32", features = ["bundled"] }
sysinfo = "0.33"
