[package]
name = "pitchfork"
version = "2.15.0"
edition = "2021"
publish = false

[dependencies]
async-stream = "*"
axum = "*"
chrono = "*"
clap = { version = "*", features = ["derive"] }
clx = "*"
comfy-table = "*"
console = "*"
cron = "*"
crossterm = "*"
fuzzy-matcher = "*"
humantime = "*"
itertools = "*"
log = "*"
lru = "*"
miette = "*"
notify = "*"
once_cell = "*"
regex = "*"
rusqlite = { version = "*", features = ["bundled", "functions"] }
serde = { version = "*", features = ["derive"] }
serde_json = "*"
shell-words = "*"
thiserror = "*"
tokio = { version = "*", features = ["full"] }
tokio-stream = "*"
toml = "*"
vte = "*"
xx = "*"
