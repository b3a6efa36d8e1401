[package]
name = "cor_args"
version = "0.1.0"
edition = "2021"
publish = false

[dependencies]
clap = { version = "4", default-features = false, features = ["std"] }
config = { version = "0.13", default-features = false, features = ["yaml"] }
serde_json = "1"
