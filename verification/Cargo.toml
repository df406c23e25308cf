[package]
name = "ics_watcher"
version = "0.1.0"
edition = "2021"
publish = false

[dependencies]
chrono = "=0.4.45"
ciborium = "=0.2.2"
dotenv = "=0.15.0"
google-calendar3 = "=7.0.0"
ical = { version = "=0.11.0", features = ["serde-derive"] }
once_cell = "=1.21.4"
regex = "=1.13.1"
reqwest = "=0.12.28"
sanitize-filename = "=0.6.0"
serde_json = "=1.0.154"
tokio = { version = "=1.54.1", features = ["full"] }
