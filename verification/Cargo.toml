[package]
name = "relm"
version = "0.1.0"
edition = "2021"
publish = false

[dependencies]
gtk = "0.1"
lazy_static = "0.2"
quote = "0.3"
syn = { version = "0.11", features = ["full", "fold", "visit"] }
