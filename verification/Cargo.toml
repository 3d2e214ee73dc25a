[package]
name = "niri-dynamic-workspaces"
version = "0.1.0"
edition = "2021"
publish = false

[dependencies]
shell-words = "*"
dirs = "*"
niri-ipc = "*"
serde = { version = "*", features = ["derive"] }
serde_json = "*"
serde_ignored = "*"
toml = "*"
indexmap = { version = "*", features = ["serde"] }
anyhow = "*"
clap = { version = "*", features = ["derive"] }
nucleo-matcher = "*"
gdk4 = "*"
