[package]
name = "standup_report"
version = "0.1.0"
edition = "2021"
publish = false

[dependencies]
time = { version = "=0.3.55", features = ["formatting"] }
git2 = "=0.21.0"
crossterm = "=0.25.0"
tui = "=0.19.0"
