[package]
name = "periodic"
version = "0.6.0"
edition = "2021"
publish = false

[dependencies]
anyhow = "1"
axoupdater = { version = "*", features = ["blocking"] }
chrono = "0.4"
chrono-tz = "0.10"
clap = { version = "4", features = ["derive"] }
croner = "3"
granit-parser = "*"
iana-time-zone = "0.1"
nix = { version = "*", features = ["signal", "process"] }
rusqlite = { version = "*", features = ["bundled"] }
serde = { version = "1", features = ["derive"] }
serde_json = { version = "1", features = ["preserve_order"] }
serde-saphyr = "*"
sha2 = "*"
thiserror = "*"
tracing = "0.1"
tracing-subscriber = { version = "0.3", features = ["env-filter"] }
