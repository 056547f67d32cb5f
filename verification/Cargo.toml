[package]
name = "atlas_packer"
version = "0.1.0"
edition = "2021"
publish = false

[dependencies]
clap = { version = "*", features = ["derive"] }
image = { version = "*", default-features = false, features = ["png", "jpeg"] }
serde = { version = "*", features = ["derive"] }
serde_json = "*"
