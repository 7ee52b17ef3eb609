[package]
name = "muote"
version = "0.1.0"
edition = "2021"
publish = false

[dependencies]
sha1 = "0.10"
rand = "0.9"
dirs = "*"
serde = { version = "1", features = ["derive"] }
serde_json = "1"
anyhow = "1"
log = "0.4"
simplelog = "*"
wikiquote-fetcher = "*"
gtk = "0.18"
pangocairo = "0.18"
relm4 = { version = "0.7", features = ["libadwaita"] }
