[package]
name = "workforest_core"
version = "0.1.0"
edition = "2021"
publish = false

[dependencies]
petname = "*"
directories = "*"
serde = { version = "*", features = ["derive"] }
serde_json = "*"
toml = "*"
rusqlite = { version = "*", features = ["bundled"] }
portable-pty = "*"
nix = { version = "*", features = ["socket", "uio"] }
termwiz = "*"
