[package]
name = "sanelens"
version = "0.1.0"
edition = "2021"
publish = false

[dependencies]
serde = { version = "*", features = ["derive"] }
serde_json = "*"
serde_yaml = "*"
shell-words = "*"
getrandom = "*"
time = { version = "*", features = ["formatting", "parsing"] }
signal-hook = "*"
libc = "*"
webbrowser = "*"
