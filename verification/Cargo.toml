[package]
name = "event_executable"
version = "0.1.0"
edition = "2021"
publish = false

[dependencies]
hecs = "*"
tokio = { version = "*", features = ["rt"] }
small_derive_deref = "*"
