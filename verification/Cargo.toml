[package]
name = "aurora"
version = "0.1.0"
edition = "2021"
publish = false

[dependencies]
strsim = "*"
anyhow = "1"
colored = "*"
cpal = "*"
open = "*"
serde_json = "1"
vosk = "*"

[dev-dependencies]
rand = "*"
