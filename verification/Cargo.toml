[package]
name = "bufkit-data"
version = "0.1.0"
edition = "2021"
publish = false

[dependencies]
chrono = "0.4"
flate2 = "1"
fnv = "1"
rusqlite = { version = "*", features = ["bundled", "chrono"] }
sounding-analysis = "*"
sounding-bufkit = "*"
strum = "*"
