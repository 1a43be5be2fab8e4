[package]
name = "repeatlint"
version = "0.1.0"
edition = "2021"
publish = false

[dependencies]
anyhow = "1"
html-escape = "0.2"
serde = { version = "1", features = ["derive"] }
structopt = "0.3"
toml = "0.8"
vibrato = "0.5"
webbrowser = "*"
zstd = "0.13"
