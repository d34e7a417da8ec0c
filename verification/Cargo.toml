[package]
name = "euclid_beats"
version = "0.1.0"
edition = "2021"
publish = false

[dependencies]
im = "15"
tokio = { version = "1", default-features = false, features = ["rt", "sync", "time"] }
crossterm = { version = "*", default-features = false }
