[package]
name = "rxtt"
version = "0.1.0"
edition = "2021"
publish = false

[dependencies]
anstyle = "1"
chrono = "0.4"
clap = { version = "4", features = ["derive"] }
nix = { version = "0.30", features = ["poll"] }
regex = "1"
rusqlite = { version = "*", features = ["bundled"] }
serde = { version = "1", features = ["derive"] }
serde_json = "1"
signal-hook = "0.3"
toml = "*"
unicode-general-category = "*"
unicode-normalization = "0.1"
x11rb = { version = "*", features = ["screensaver"] }
