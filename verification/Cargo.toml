[package]
name = "tui_bot"
version = "0.1.0"
edition = "2021"
publish = false

[dependencies]
rust_decimal = "1"
chrono = "0.4"
hex = "0.4"
hmac = "0.12"
sha2 = "0.10"
regex = "1"
serde = { version = "1", features = ["derive"] }
serde_json = "1"
thiserror = "1"
clap = { version = "4", features = ["derive"] }
crossterm = "0.28"
ureq = { version = "2", features = ["json"] }
