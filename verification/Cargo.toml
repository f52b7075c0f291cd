[package]
name = "iceray"
version = "0.1.0"
edition = "2021"
publish = false

[dependencies]
iceoryx-rs = "*"
ratatui = { version = "0.22", default-features = false, features = ["termion"] }
structopt = "0.3"
termion = "2.0"
