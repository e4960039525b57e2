[package]
name = "pdflib"
version = "0.1.0"
edition = "2021"
publish = false

[dependencies]
anyhow = "*"
chrono = "*"
clap = { version = "*", features = ["derive"] }
colorsys = "*"
copypasta-ext = "*"
directories = "*"
env_logger = "*"
file-rotate = "*"
log = "*"
lopdf = "*"
notifica = "*"
open = "*"
reqwest = { version = "*", features = ["blocking"] }
serde = { version = "*", features = ["derive"] }
serde_json = "*"
serde_urlencoded = "*"
serde_yaml = "*"
sha2 = "*"
tempfile = "*"
thiserror = "*"
url = "*"
