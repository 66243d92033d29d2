[package]
name = "inox2d"
version = "0.1.0"
edition = "2021"
publish = false

[dependencies]
image = { version = "0.24", default-features = false, features = ["png"] }
json = "0.12"
rayon = "1"
thiserror = "1"
tracing = "0.1"
