[package]
name = "cast2svg"
version = "0.1.0"
edition = "2021"
publish = false

[dependencies]
xmlwriter = "*"
vte = "*"
serde = { version = "*", features = ["derive"] }
serde_json = "*"
anyhow = "*"
clap = { version = "*", features = ["derive"] }
log = "*"
stderrlog = "*"
