[package]
name = "image_processor"
version = "0.1.0"
edition = "2021"
publish = false

[dependencies]
clap = { version = "4", features = ["derive"] }
image = { version = "*", default-features = false, features = ["png"] }
libloading = "0.8"
thiserror = "*"
