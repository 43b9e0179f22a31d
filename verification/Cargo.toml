[package]
name = "vireo"
version = "0.1.0"
edition = "2021"
publish = false

[dependencies]
chrono = "0.4"
serde_json = "1"
tokio = { version = "1", features = ["rt"] }
tracing = "0.1"
relm4 = { version = "0.9", features = ["libadwaita"] }
webkit6 = "0.4"
