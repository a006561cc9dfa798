[package]
name = "rogue_xork"
version = "0.1.0"
edition = "2021"
publish = false

[dependencies]
anyhow = "1"
esp-idf-hal = "*"
esp-idf-svc = "*"
esp-idf-sys = "*"
kahuna = "*"
log = "0.4"
rand = "0.8"
serde = { version = "1", features = ["derive"] }
shared-bus = "*"
strum = { version = "*", features = ["derive"] }
strum_macros = "*"
