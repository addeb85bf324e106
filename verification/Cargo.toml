[package]
name = "code_scanner"
version = "0.1.0"
edition = "2021"
publish = false

[dependencies]
humansize = "2"
unic-langid = "0.9"
pathdiff = "0.2"
ignore = "0.4"
clap = { version = "4", features = ["derive"] }
chrono = { version = "0.4", features = ["unstable-locales"] }
fluent-bundle = "0.15"
sys-locale = "0.3"
anyhow = "1"
serde_json = "1"

[dev-dependencies]
tempfile = "3"
